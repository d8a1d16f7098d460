//! One row of a directory listing: a real child of the directory, or the
//! synthetic parent link named `..`.

use vstd::prelude::*;

verus! {

/// A listing row as handed to the rendering collaborator. `link_path` is the
/// path the row's hyperlink uses, relative to the serving root (the parent
/// row instead carries the parent's `/`-prefixed path). `size` and
/// `last_modified` are display strings, `-` where nothing applies or the
/// metadata was unavailable.
#[derive(Debug, PartialEq, Eq)]
pub struct Entry {
    pub name: String,
    pub link_path: String,
    pub is_dir: bool,
    pub size: String,
    pub last_modified: String,
}

/// The mathematical shadow of an [`Entry`]: the same five fields with the
/// strings as character sequences.
#[verifier::ext_equal]
pub struct EntryModel {
    pub name: Seq<char>,
    pub link_path: Seq<char>,
    pub is_dir: bool,
    pub size: Seq<char>,
    pub last_modified: Seq<char>,
}

impl View for Entry {
    type V = EntryModel;

    open spec fn view(&self) -> EntryModel {
        EntryModel {
            name: self.name@,
            link_path: self.link_path@,
            is_dir: self.is_dir,
            size: self.size@,
            last_modified: self.last_modified@,
        }
    }
}

/// The models of a sequence of entries, element by element.
pub open spec fn models(s: Seq<Entry>) -> Seq<EntryModel> {
    s.map_values(|e: Entry| e@)
}

} // verus!
