use vstd::prelude::*;

use crate::load_table_task::texts;

verus! {

/// What a downloader of a table's files should do next.
pub enum NextFileToDownload {
    /// Download this file.
    File(String),
    /// Every listed file was handed out and the listing is complete.
    Done,
    /// Nothing to hand out yet, but the listing goes on: ask again later.
    Wait,
}

/// The files of one table that wait to be downloaded, in the order they
/// were listed, and whether the listing is complete.
pub struct FilesToDownloadListInner {
    tables: Vec<String>,
    everything_is_loaded: bool,
}

/// What is known of the files to download.
pub struct FilesToDownloadView {
    pub files: Seq<Seq<char>>,
    pub everything_is_loaded: bool,
}

impl View for FilesToDownloadListInner {
    type V = FilesToDownloadView;

    closed spec fn view(&self) -> FilesToDownloadView {
        FilesToDownloadView { files: texts(self.tables@), everything_is_loaded: self.everything_is_loaded }
    }
}

impl FilesToDownloadListInner {
    pub fn new() -> (r: Self)
        ensures
            r@.files == Seq::<Seq<char>>::empty(),
            !r@.everything_is_loaded,
    {
        let r = Self { tables: Vec::new(), everything_is_loaded: false };
        assert(r@.files =~= Seq::<Seq<char>>::empty());
        r
    }

    /// Appends listed files.
    pub fn add_files(&mut self, files: Vec<String>)
        ensures
            final(self)@.files == old(self)@.files + texts(files@),
            final(self)@.everything_is_loaded == old(self)@.everything_is_loaded,
    {
        let mut files = files;
        let ghost before = self.tables@;
        let ghost added = files@;
        self.tables.append(&mut files);
        assert(texts(self.tables@) =~= texts(before) + texts(added));
    }

    /// Notes that the listing is complete.
    pub fn set_files_list_is_loaded(&mut self)
        ensures
            final(self)@.files == old(self)@.files,
            final(self)@.everything_is_loaded,
    {
        self.everything_is_loaded = true;
    }

    /// The first waiting file, taken out; when none waits, `Done` once the
    /// listing is complete, else `Wait`.
    pub fn get_next_file_to_download(&mut self) -> (r: NextFileToDownload)
        ensures
            old(self)@.files.len() > 0 ==> {
                &&& r matches NextFileToDownload::File(f) && f@ == old(self)@.files[0]
                &&& final(self)@.files == old(self)@.files.drop_first()
                &&& final(self)@.everything_is_loaded == old(self)@.everything_is_loaded
            },
            old(self)@.files.len() == 0 ==> {
                &&& final(self)@ == old(self)@
                &&& if old(self)@.everything_is_loaded {
                    r is Done
                } else {
                    r is Wait
                }
            },
    {
        if self.tables.len() > 0 {
            let ghost before = self.tables@;
            let file_name = self.tables.remove(0);
            assert(texts(self.tables@) =~= texts(before).drop_first());
            return NextFileToDownload::File(file_name);
        }
        if self.everything_is_loaded {
            return NextFileToDownload::Done;
        }
        NextFileToDownload::Wait
    }
}

} // verus!
