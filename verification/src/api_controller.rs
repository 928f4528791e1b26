use vstd::prelude::*;

verus! {

/// The monitoring endpoint that answers whether the server is alive.
pub struct ApiController {}

/// Where the monitoring endpoint is served.
pub const IS_ALIVE_ROUTE: &'static str = "/Api/IsAlive";

/// The name the server gives of itself in an is-alive answer.
pub const SERVER_NAME: &'static str = "MyNoSqlServer";

/// What the monitoring endpoint answers.
pub struct IsAliveResponse {
    pub name: String,
    pub time: String,
    pub version: String,
    pub env_info: Option<String>,
}

impl ApiController {
    pub fn new() -> (r: Self)
        ensures
            r == (ApiController {}),
    {
        Self {}
    }

    /// The route the controller answers on.
    pub fn get_route(&self) -> (r: &'static str)
        ensures
            r@ == IS_ALIVE_ROUTE@,
    {
        IS_ALIVE_ROUTE
    }

    /// Builds the answer from the server's version, the environment label (if
    /// any) and the current time already written as RFC 3339.
    pub fn is_alive_response(&self, version: String, env_info: Option<String>, time: String) -> (r: IsAliveResponse)
        ensures
            r.name@ == SERVER_NAME@,
            r.time == time,
            r.version == version,
            r.env_info == env_info,
    {
        IsAliveResponse { name: SERVER_NAME.to_string(), time, version, env_info }
    }
}

} // verus!
