use vstd::prelude::*;
use vstd::string::StringExecFns;

use std::sync::Arc;

use crate::logs::{LogItem, LogLevel, SystemProcess};

verus! {

/// What `format!("{:?}", s)` writes for a string `s`: the string in double
/// quotes, with the characters that Rust's `Debug` escapes escaped.
pub uninterp spec fn str_debug(s: Seq<char>) -> Seq<char>;

/// `<str as Debug>::fmt`, through `format!("{:?}", s)`: the quoted, escaped text of `s`.
#[verifier::external_body]
fn debug_text(s: &str) -> (r: String)
    ensures
        r@ == str_debug(s@),
{
    format!("{:?}", s)
}

/// What ends each line of a page.
pub const LINE_END: &'static str = "\n";

/// `s` as a line of a page.
pub open spec fn line(s: Seq<char>) -> Seq<char> {
    s + LINE_END@
}

/// The name of a level as a page shows it.
pub open spec fn level_name(level: LogLevel) -> Seq<char> {
    match level {
        LogLevel::Info => "Info"@,
        LogLevel::Error => "Error"@,
        LogLevel::FatalError => "FatalError"@,
    }
}

/// Each level is shown by its own name, the name of its variant: distinct
/// levels get distinct names, and a fatal error is shown as "FatalError".
pub proof fn law_levels_have_their_own_names(a: LogLevel, b: LogLevel)
    ensures
        level_name(a) == level_name(b) ==> a == b,
        level_name(LogLevel::FatalError) == "FatalError"@,
        level_name(LogLevel::Error) == "Error"@,
        level_name(LogLevel::Info) == "Info"@,
{
    reveal_strlit("Info");
    reveal_strlit("Error");
    reveal_strlit("FatalError");
}

/// The colour a page gives a level.
pub open spec fn level_color(level: LogLevel) -> Seq<char> {
    match level {
        LogLevel::Info => "green"@,
        LogLevel::Error => "orange"@,
        LogLevel::FatalError => "red"@,
    }
}

/// The name of a process as a page shows it.
pub open spec fn process_name(process: SystemProcess) -> Seq<char> {
    match process {
        SystemProcess::System => "System"@,
        SystemProcess::TcpSocket => "TcpSocket"@,
        SystemProcess::PersistOperation => "PersistOperation"@,
        SystemProcess::TableOperation => "TableOperation"@,
        SystemProcess::Init => "Init"@,
        SystemProcess::Timer => "Timer"@,
    }
}

/// Each process is shown by its own name: distinct processes get distinct names.
pub proof fn law_processes_have_their_own_names(a: SystemProcess, b: SystemProcess)
    ensures
        process_name(a) == process_name(b) ==> a == b,
{
    reveal_strlit("System");
    reveal_strlit("TcpSocket");
    reveal_strlit("PersistOperation");
    reveal_strlit("TableOperation");
    reveal_strlit("Init");
    reveal_strlit("Timer");
    if process_name(a) == process_name(b) {
        assert(process_name(a).len() == process_name(b).len());
    }
}

/// Each level is shown in its own colour.
pub proof fn law_levels_have_their_own_colors(a: LogLevel, b: LogLevel)
    ensures
        level_color(a) == level_color(b) ==> a == b,
{
    reveal_strlit("green");
    reveal_strlit("orange");
    reveal_strlit("red");
    if level_color(a) == level_color(b) {
        assert(level_color(a).len() == level_color(b).len());
    }
}

/// The links at the top of a page of log records.
pub open spec fn page_header() -> Seq<char> {
    line("<a class='btn btn-outline-secondary btn-sm' href='/logs'>Show All Log records</a>"@)
        + line(
        "<a class='btn btn-outline-secondary btn-sm' href='/logs/table'>Show Log records by table</a>"@,
    ) + line(
        "<a class='btn btn-outline-secondary btn-sm' href='/logs/process'>Show Log records by process</a>"@,
    ) + line("<hr/>"@)
}

/// The lines of one record written at `date` (RFC 3339).
pub open spec fn record_lines(item: LogItem, date: Seq<char>) -> Seq<char> {
    line(
        "<b style='background:"@ + level_color(item.level) + "; color:white;'>"@ + level_name(
            item.level,
        ) + ":</b> "@ + date + "</br>"@,
    ) + (match item.table {
        Some(t) => line(
            "<b>Table:</b> <a href='/logs/table/"@ + t@ + "'>"@ + t@ + "</a></br>"@,
        ),
        None => Seq::empty(),
    }) + line(
        "<b>Process:</b> <a href='/logs/process/"@ + process_name(item.process) + "'>"@
            + process_name(item.process) + "</a></br>"@,
    ) + line("<b>Process Name:</b> "@ + item.process_name@ + "</br>"@) + line(
        "<b>Msg:</b> "@ + item.message@ + "</br>"@,
    ) + (match item.err_ctx {
        Some(c) => line("<b>ErrCTX:</b> "@ + str_debug(c@) + "</br>"@),
        None => Seq::empty(),
    }) + line("<hr/>"@)
}

/// The lines of the records `items`, each with its date, in order.
pub open spec fn records_lines(items: Seq<(LogItem, Seq<char>)>) -> Seq<char>
    decreases items.len(),
{
    if items.len() == 0 {
        Seq::empty()
    } else {
        records_lines(items.drop_last()) + record_lines(items.last().0, items.last().1)
    }
}

/// The records with their dates.
pub open spec fn page_items(items: Seq<(Arc<LogItem>, String)>) -> Seq<(LogItem, Seq<char>)> {
    items.map_values(|p: (Arc<LogItem>, String)| (*p.0, p.1@))
}

/// The body of a page of log records: the links, every record in order,
/// and how long the page took to render.
pub open spec fn logs_page_spec(items: Seq<(LogItem, Seq<char>)>, rendered_in: Seq<char>) -> Seq<char> {
    page_header() + records_lines(items) + line("Rendered in "@ + rendered_in)
}

fn level_text(level: &LogLevel) -> (r: &'static str)
    ensures
        r@ == level_name(*level),
        r@ == match *level {
            LogLevel::Info => "Info"@,
            LogLevel::Error => "Error"@,
            LogLevel::FatalError => "FatalError"@,
        },
{
    match level {
        LogLevel::Info => "Info",
        LogLevel::Error => "Error",
        LogLevel::FatalError => "FatalError",
    }
}

fn level_color_text(level: &LogLevel) -> (r: &'static str)
    ensures
        r@ == level_color(*level),
{
    match level {
        LogLevel::Info => "green",
        LogLevel::Error => "orange",
        LogLevel::FatalError => "red",
    }
}

fn process_text(process: &SystemProcess) -> (r: &'static str)
    ensures
        r@ == process_name(*process),
{
    match process {
        SystemProcess::System => "System",
        SystemProcess::TcpSocket => "TcpSocket",
        SystemProcess::PersistOperation => "PersistOperation",
        SystemProcess::TableOperation => "TableOperation",
        SystemProcess::Init => "Init",
        SystemProcess::Timer => "Timer",
    }
}

/// Appends `s` as a line.
fn append_line(page: &mut String, s: &str)
    ensures
        final(page)@ == old(page)@ + line(s@),
{
    page.append(s);
    page.append(LINE_END);
}

/// Appends the lines of one record.
fn append_record(page: &mut String, item: &LogItem, date: &String)
    ensures
        final(page)@ == old(page)@ + record_lines(*item, date@),
{
    let ghost start = page@;
    let mut l = String::from_str("<b style='background:");
    l.append(level_color_text(&item.level));
    l.append("; color:white;'>");
    l.append(level_text(&item.level));
    l.append(":</b> ");
    l.append(date.as_str());
    l.append("</br>");
    append_line(page, l.as_str());
    let ghost p1 = page@;
    match &item.table {
        Some(t) => {
            let mut l = String::from_str("<b>Table:</b> <a href='/logs/table/");
            l.append(t.as_str());
            l.append("'>");
            l.append(t.as_str());
            l.append("</a></br>");
            append_line(page, l.as_str());
        },
        None => {},
    }
    let ghost p2 = page@;
    let mut l = String::from_str("<b>Process:</b> <a href='/logs/process/");
    l.append(process_text(&item.process));
    l.append("'>");
    l.append(process_text(&item.process));
    l.append("</a></br>");
    append_line(page, l.as_str());
    let mut l = String::from_str("<b>Process Name:</b> ");
    l.append(item.process_name.as_str());
    l.append("</br>");
    append_line(page, l.as_str());
    let mut l = String::from_str("<b>Msg:</b> ");
    l.append(item.message.as_str());
    l.append("</br>");
    append_line(page, l.as_str());
    let ghost p3 = page@;
    match &item.err_ctx {
        Some(c) => {
            let mut l = String::from_str("<b>ErrCTX:</b> ");
            let text = debug_text(c.as_str());
            l.append(text.as_str());
            l.append("</br>");
            append_line(page, l.as_str());
        },
        None => {},
    }
    append_line(page, "<hr/>");
    assert(page@ =~= start + record_lines(*item, date@));
}

/// The body of a page of log records: links to the other pages, then each
/// record with its date (written as RFC 3339 by the caller), then
/// "Rendered in " and how long rendering took (as the caller writes it).
pub fn logs_page(items: &Vec<(Arc<LogItem>, String)>, rendered_in: String) -> (r: String)
    ensures
        r@ == logs_page_spec(page_items(items@), rendered_in@),
{
    let mut page = String::from_str("");
    append_line(&mut page, "<a class='btn btn-outline-secondary btn-sm' href='/logs'>Show All Log records</a>");
    append_line(&mut page, "<a class='btn btn-outline-secondary btn-sm' href='/logs/table'>Show Log records by table</a>");
    append_line(&mut page, "<a class='btn btn-outline-secondary btn-sm' href='/logs/process'>Show Log records by process</a>");
    append_line(&mut page, "<hr/>");
    assert(page@ =~= page_header()) by {
        reveal_strlit("");
    }
    let n = items.len();
    let mut i: usize = 0;
    while i < n
        invariant
            n == items@.len(),
            i <= n,
            page@ == page_header() + records_lines(page_items(items@).take(i as int)),
        decreases n - i,
    {
        let ghost before = page@;
        let (item, date) = &items[i];
        append_record(&mut page, &**item, date);
        proof {
            let all = page_items(items@);
            assert(all.take(i + 1).drop_last() =~= all.take(i as int));
            assert(all.take(i + 1).last() == all[i as int]);
            assert(page@ =~= page_header() + records_lines(all.take(i + 1)));
        }
        i = i + 1;
    }
    assert(page_items(items@).take(n as int) =~= page_items(items@));
    let mut last = String::from_str("Rendered in ");
    last.append(rendered_in.as_str());
    append_line(&mut page, last.as_str());
    page
}

/// The body of the page that offers the tables whose logs can be shown.
pub open spec fn select_table_links(names: Seq<Seq<char>>) -> Seq<char>
    decreases names.len(),
{
    if names.len() == 0 {
        Seq::empty()
    } else {
        select_table_links(names.drop_last()) + "<a class='btn btn-sm btn-outline-primary' href='/logs/table/"@
            + names.last() + "'>"@ + names.last() + "</a>"@
    }
}

/// The body of the page that offers a link to the logs of each table.
pub fn select_table_page(table_names: &Vec<String>) -> (r: String)
    ensures
        r@ == "<h1>Please, select table to show logs</h1>"@ + select_table_links(
            crate::load_table_task::texts(table_names@),
        ),
{
    let mut body = String::from_str("<h1>Please, select table to show logs</h1>");
    let ghost head = body@;
    let n = table_names.len();
    let mut i: usize = 0;
    while i < n
        invariant
            n == table_names@.len(),
            i <= n,
            body@ == head + select_table_links(crate::load_table_task::texts(table_names@).take(i as int)),
            head == "<h1>Please, select table to show logs</h1>"@,
        decreases n - i,
    {
        let t = table_names[i].as_str();
        body.append("<a class='btn btn-sm btn-outline-primary' href='/logs/table/");
        body.append(t);
        body.append("'>");
        body.append(t);
        body.append("</a>");
        proof {
            let all = crate::load_table_task::texts(table_names@);
            assert(all.take(i + 1).drop_last() =~= all.take(i as int));
            assert(all.take(i + 1).last() == t@);
            assert(body@ =~= head + select_table_links(all.take(i + 1)));
        }
        i = i + 1;
    }
    assert(crate::load_table_task::texts(table_names@).take(n as int) =~= crate::load_table_task::texts(table_names@));
    body
}

/// The answer when a table has no log records: how long the lookup took
/// (as the caller writes it) and the table's name.
pub fn no_table_records_text(rendered_in: &str, table_name: &str) -> (r: String)
    ensures
        r@ == "Result compiled in: "@ + rendered_in@ + ". No log recods for the table '"@ + table_name@ + "'"@,
{
    let mut r = String::from_str("Result compiled in: ");
    r.append(rendered_in);
    r.append(". No log recods for the table '");
    r.append(table_name);
    r.append("'");
    r
}

/// The answer when there are no fatal errors: how long the lookup took
/// (as the caller writes it).
pub fn no_fatal_errors_text(rendered_in: &str) -> (r: String)
    ensures
        r@ == "Result compiled in: "@ + rendered_in@ + ". No fatal error records"@,
{
    let mut r = String::from_str("Result compiled in: ");
    r.append(rendered_in);
    r.append(". No fatal error records");
    r
}

} // verus!
