use vstd::prelude::*;
use vstd::multiset::Multiset;

use crate::str_key::same_text;

verus! {

/// The strings of `v` as character sequences.
pub open spec fn texts(v: Seq<String>) -> Seq<Seq<char>> {
    v.map_values(|s: String| s@)
}

/// What is known of the loading of one table's files.
pub struct LoadTaskView<T> {
    /// Listed files not yet handed out, in the order they were listed.
    pub pending: Seq<Seq<char>>,
    /// Files handed out for loading whose content has not come back.
    pub in_progress: Seq<Seq<char>>,
    /// Loaded contents with the names of their files, in the order they came back.
    pub loaded: Seq<(Seq<char>, T)>,
    /// The listing of the table's files is complete.
    pub list_loaded: bool,
}

/// The loading of one table's files: the files still to hand out, those
/// handed out, the contents that came back.
pub struct LoadTableTask<T> {
    files: Vec<String>,
    files_in_progress: Vec<String>,
    loaded: Vec<(String, T)>,
    file_list_is_loaded: bool,
}

impl<T> View for LoadTableTask<T> {
    type V = LoadTaskView<T>;

    closed spec fn view(&self) -> LoadTaskView<T> {
        LoadTaskView {
            pending: texts(self.files@),
            in_progress: texts(self.files_in_progress@),
            loaded: self.loaded@.map_values(|p: (String, T)| (p.0@, p.1)),
            list_loaded: self.file_list_is_loaded,
        }
    }
}

/// Every listed file has come back and the listing is complete.
pub open spec fn all_loaded<T>(v: LoadTaskView<T>) -> bool {
    v.list_loaded && v.pending.len() == 0 && v.in_progress.len() == 0
}

/// The first position of `k` in `s`, or `s.len()` when absent.
pub open spec fn first_index_of(s: Seq<Seq<char>>, k: Seq<char>) -> int
    decreases s.len(),
{
    if s.len() == 0 {
        0
    } else if s[0] == k {
        0
    } else {
        1 + first_index_of(s.drop_first(), k)
    }
}

/// `s` without the first occurrence of `k` (unchanged when absent).
pub open spec fn without_first(s: Seq<Seq<char>>, k: Seq<char>) -> Seq<Seq<char>> {
    let i = first_index_of(s, k);
    if i < s.len() {
        s.remove(i)
    } else {
        s
    }
}

/// The loading after the first waiting file was handed out.
pub open spec fn after_hand_out<T>(v: LoadTaskView<T>) -> LoadTaskView<T> {
    LoadTaskView { pending: v.pending.drop_first(), in_progress: v.in_progress.push(v.pending[0]), ..v }
}

/// The loading after the content of `file` came back.
pub open spec fn after_upload<T>(v: LoadTaskView<T>, file: Seq<char>, item: T) -> LoadTaskView<T> {
    LoadTaskView {
        in_progress: without_first(v.in_progress, file),
        loaded: v.loaded.push((file, item)),
        ..v
    }
}

/// The names of the loaded files, in the order they came back.
pub open spec fn loaded_names<T>(v: LoadTaskView<T>) -> Seq<Seq<char>> {
    v.loaded.map_values(|p: (Seq<char>, T)| p.0)
}

/// Every file the loading knows of, wherever it stands: waiting, handed
/// out, or loaded.
pub open spec fn accounted<T>(v: LoadTaskView<T>) -> Multiset<Seq<char>> {
    v.pending.to_multiset().add(v.in_progress.to_multiset()).add(loaded_names(v).to_multiset())
}

impl<T> LoadTableTask<T> {
    pub fn new() -> (r: Self)
        ensures
            r@.pending == Seq::<Seq<char>>::empty(),
            r@.in_progress == Seq::<Seq<char>>::empty(),
            r@.loaded == Seq::<(Seq<char>, T)>::empty(),
            !r@.list_loaded,
    {
        let r = Self {
            files: Vec::new(),
            files_in_progress: Vec::new(),
            loaded: Vec::new(),
            file_list_is_loaded: false,
        };
        assert(r@.pending =~= Seq::<Seq<char>>::empty());
        assert(r@.in_progress =~= Seq::<Seq<char>>::empty());
        assert(r@.loaded =~= Seq::<(Seq<char>, T)>::empty());
        r
    }

    /// Appends listed files to those to hand out.
    pub fn add_list_of_files(&mut self, files: Vec<String>)
        ensures
            final(self)@ == (LoadTaskView { pending: old(self)@.pending + texts(files@), ..old(self)@ }),
    {
        let mut files = files;
        let ghost before = self.files@;
        let ghost added = files@;
        self.files.append(&mut files);
        assert(texts(self.files@) =~= texts(before) + texts(added));
    }

    /// Notes that the listing of the table's files is complete.
    pub fn set_file_list_is_loaded(&mut self)
        ensures
            final(self)@ == (LoadTaskView { list_loaded: true, ..old(self)@ }),
    {
        self.file_list_is_loaded = true;
    }

    pub fn is_file_list_loaded(&self) -> (r: bool)
        ensures
            r == self@.list_loaded,
    {
        self.file_list_is_loaded
    }

    /// Hands out the first listed file not yet handed out.
    pub fn get_next_file_to_load_content(&mut self) -> (r: Option<String>)
        ensures
            old(self)@.pending.len() == 0 ==> r is None && final(self)@ == old(self)@,
            old(self)@.pending.len() > 0 ==> {
                &&& r matches Some(f) && f@ == old(self)@.pending[0]
                &&& final(self)@ == after_hand_out(old(self)@)
            },
    {
        if self.files.len() == 0 {
            return None;
        }
        let ghost before = self.files@;
        let ghost before_progress = self.files_in_progress@;
        let file_name = self.files.remove(0);
        assert(texts(self.files@) =~= texts(before).drop_first());
        self.files_in_progress.push(file_name.clone());
        assert(texts(self.files_in_progress@) =~= texts(before_progress).push(file_name@));
        Some(file_name)
    }

    /// Takes in the loaded content of `file_name`.
    pub fn upload(&mut self, file_name: String, item: T)
        ensures
            final(self)@ == after_upload(old(self)@, file_name@, item),
    {
        let ghost progress = texts(self.files_in_progress@);
        let ghost loaded = self.loaded@;
        let n = self.files_in_progress.len();
        let mut i: usize = 0;
        while i < n
            invariant
                n == self.files_in_progress@.len(),
                progress == texts(self.files_in_progress@),
                i <= n,
                forall|j: int| 0 <= j < i ==> self.files_in_progress@[j]@ != file_name@,
            ensures
                i <= n,
                forall|j: int| 0 <= j < i ==> self.files_in_progress@[j]@ != file_name@,
                i < n ==> self.files_in_progress@[i as int]@ == file_name@,
            decreases n - i,
        {
            if same_text(self.files_in_progress[i].as_str(), file_name.as_str()) {
                break;
            }
            i = i + 1;
        }
        proof {
            lemma_first_index_of(progress, file_name@, i as int);
        }
        if i < n {
            self.files_in_progress.remove(i);
            assert(texts(self.files_in_progress@) =~= progress.remove(i as int));
        }
        self.loaded.push((file_name, item));
        assert(self.loaded@.map_values(|p: (String, T)| (p.0@, p.1)) =~= loaded.map_values(
            |p: (String, T)| (p.0@, p.1),
        ).push((file_name@, item)));
    }

    /// Some listed file waits to be handed out.
    pub fn has_file_to_load(&self) -> (r: bool)
        ensures
            r == (self@.pending.len() > 0),
    {
        self.files.len() > 0
    }

    /// Every listed file has come back and the listing is complete.
    pub fn all_files_are_loaded(&self) -> (r: bool)
        ensures
            r == all_loaded(self@),
    {
        self.file_list_is_loaded && self.files.len() == 0 && self.files_in_progress.len() == 0
    }

    /// The loaded contents with the names of their files, in the order they came back.
    pub fn into_loaded(self) -> (r: Vec<(String, T)>)
        ensures
            r@.map_values(|p: (String, T)| (p.0@, p.1)) == self@.loaded,
    {
        self.loaded
    }
}

/// The first occurrence of a present `k` is a position of `k`.
pub proof fn lemma_first_index_of_present(s: Seq<Seq<char>>, k: Seq<char>)
    requires
        s.contains(k),
    ensures
        0 <= first_index_of(s, k) < s.len(),
        s[first_index_of(s, k)] == k,
    decreases s.len(),
{
    if s[0] != k {
        let j = choose|j: int| 0 <= j < s.len() && s[j] == k;
        assert(s.drop_first()[j - 1] == k);
        lemma_first_index_of_present(s.drop_first(), k);
    }
}

/// No file is lost or doubled while a table loads: handing out a waiting
/// file, and taking back the content of a file that was handed out, leave
/// the files the loading knows of as they were; listing files adds exactly
/// those files.
pub proof fn law_files_are_never_lost<T>(v: LoadTaskView<T>, files: Seq<Seq<char>>, file: Seq<char>, item: T)
    ensures
        v.pending.len() > 0 ==> accounted(after_hand_out(v)) == accounted(v),
        v.in_progress.contains(file) ==> accounted(after_upload(v, file, item)) == accounted(v),
        accounted(LoadTaskView { pending: v.pending + files, ..v }) == accounted(v).add(files.to_multiset()),
{
    broadcast use vstd::seq_lib::group_to_multiset_ensures;
    broadcast use vstd::multiset::group_multiset_axioms;
    if v.pending.len() > 0 {
        let p = v.pending;
        assert(p.drop_first() =~= p.remove(0));
        assert(p.to_multiset().count(p[0]) > 0);
        assert(accounted(after_hand_out(v)) =~= accounted(v));
    }
    if v.in_progress.contains(file) {
        lemma_first_index_of_present(v.in_progress, file);
        let w = after_upload(v, file, item);
        assert(loaded_names(w) =~= loaded_names(v).push(file));
        assert(v.in_progress.to_multiset().count(file) > 0);
        assert(accounted(w) =~= accounted(v));
    }
    vstd::seq_lib::lemma_multiset_commutative(v.pending, files);
    assert(accounted(LoadTaskView { pending: v.pending + files, ..v }) =~= accounted(v).add(files.to_multiset()));
}

/// If the first `i` items differ from `k` and item `i` (if any) is `k`,
/// then `i` is the first position of `k`.
pub proof fn lemma_first_index_of(s: Seq<Seq<char>>, k: Seq<char>, i: int)
    requires
        0 <= i <= s.len(),
        forall|j: int| 0 <= j < i ==> s[j] != k,
        i < s.len() ==> s[i] == k,
    ensures
        first_index_of(s, k) == i,
    decreases s.len(),
{
    if s.len() > 0 && i > 0 {
        lemma_first_index_of(s.drop_first(), k, i - 1);
    }
}

} // verus!
