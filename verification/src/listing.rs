//! DirectoryLister: a snapshot of a directory's children becomes the ordered
//! listing that is rendered to the client.
//!
//! The caller enumerates the directory and hands over one [`ChildRecord`] per
//! child; a record whose metadata could not be read carries `None` fields and
//! degrades to placeholders instead of failing the listing. The listing
//! prepends a `..` parent row outside the root, and sorts only the children:
//! the parent row stays first no matter how the children compare.

use crate::entry::{models, Entry, EntryModel};
use crate::order::{sort_entries, sort_listing};
use crate::paths::{
    child_link, child_link_spec, display_path, norm_slashes, parent_link, parent_link_spec,
    trim_leading_slashes,
};
use crate::size::{format_size, size_str};
use crate::text::push_char;
use crate::time::{format_utc, utc_datetime_of};
use vstd::prelude::*;

verus! {

/// One raw directory child as the filesystem reported it: its name, whether
/// it is a directory, its byte length, and its modification time in seconds
/// since the Unix epoch. A `None` means the metadata was unavailable; such a
/// child is listed as a file with placeholder fields.
#[derive(Debug, PartialEq, Eq)]
pub struct ChildRecord {
    pub name: String,
    pub is_dir: bool,
    pub size: Option<u64>,
    pub modified_secs: Option<u64>,
}

/// The mathematical shadow of a [`ChildRecord`].
#[verifier::ext_equal]
pub struct ChildModel {
    pub name: Seq<char>,
    pub is_dir: bool,
    pub size: Option<u64>,
    pub modified_secs: Option<u64>,
}

impl View for ChildRecord {
    type V = ChildModel;

    open spec fn view(&self) -> ChildModel {
        ChildModel {
            name: self.name@,
            is_dir: self.is_dir,
            size: self.size,
            modified_secs: self.modified_secs,
        }
    }
}

/// The models of a sequence of child records, element by element.
pub open spec fn child_models(s: Seq<ChildRecord>) -> Seq<ChildModel> {
    s.map_values(|c: ChildRecord| c@)
}

/// The size column for a child: `-` for directories and for a child whose
/// length is unknown, otherwise the human-readable byte count.
pub open spec fn size_field(c: ChildModel) -> Seq<char> {
    if c.is_dir {
        seq!['-']
    } else {
        match c.size {
            Some(n) => size_str(n as nat),
            None => seq!['-'],
        }
    }
}

/// The timestamp column for a child: the UTC rendering of its modification
/// time, or `-` when that was unavailable.
pub open spec fn modified_field(c: ChildModel) -> Seq<char> {
    match c.modified_secs {
        Some(t) => utc_datetime_of(t),
        None => seq!['-'],
    }
}

/// The listing row for one child of the directory at `rel`.
pub open spec fn entry_of_child(c: ChildModel, rel: Seq<char>) -> EntryModel {
    EntryModel {
        name: c.name,
        link_path: child_link_spec(rel, c.name),
        is_dir: c.is_dir,
        size: size_field(c),
        last_modified: modified_field(c),
    }
}

/// The synthetic `..` row linking to the parent of the directory at `rel`.
pub open spec fn parent_entry_model(rel: Seq<char>) -> EntryModel {
    EntryModel {
        name: seq!['.', '.'],
        link_path: parent_link_spec(rel),
        is_dir: true,
        size: seq!['-'],
        last_modified: seq!['-'],
    }
}

/// The whole listing for the directory at `rel` with children `cs`: the
/// children's rows in listing order, preceded outside the root by the parent
/// row, which is kept out of the sort.
pub open spec fn listing_spec(cs: Seq<ChildModel>, rel: Seq<char>) -> Seq<EntryModel> {
    let sorted = sort_entries(cs.map_values(|c: ChildModel| entry_of_child(c, rel)));
    if rel.len() > 0 {
        seq![parent_entry_model(rel)] + sorted
    } else {
        sorted
    }
}

/// A fresh `-` placeholder string.
fn dash_string() -> (r: String)
    ensures
        r@ == seq!['-'],
{
    let mut s = String::new();
    push_char(&mut s, '-');
    proof {
        assert(s@ =~= seq!['-']);
    }
    s
}

/// Builds the listing row for one child of the directory at `rel`.
pub fn child_entry(c: &ChildRecord, rel: &str) -> (e: Entry)
    ensures
        e@ == entry_of_child(c@, rel@),
{
    let name = c.name.clone();
    let link_path = child_link(rel, c.name.as_str());
    let size = if c.is_dir {
        dash_string()
    } else {
        match c.size {
            Some(n) => format_size(n),
            None => dash_string(),
        }
    };
    let last_modified = match c.modified_secs {
        Some(t) => format_utc(t),
        None => dash_string(),
    };
    let e = Entry { name, link_path, is_dir: c.is_dir, size, last_modified };
    proof {
        assert(e@ =~= entry_of_child(c@, rel@));
    }
    e
}

/// Builds the synthetic `..` row for the non-root directory at `rel`.
pub fn parent_entry(rel: &str) -> (e: Entry)
    ensures
        e@ == parent_entry_model(rel@),
{
    let mut name = String::new();
    push_char(&mut name, '.');
    push_char(&mut name, '.');
    let link_path = parent_link(rel);
    let size = dash_string();
    let last_modified = dash_string();
    let e = Entry { name, link_path, is_dir: true, size, last_modified };
    proof {
        assert(e@.name =~= seq!['.', '.']);
        assert(e@ =~= parent_entry_model(rel@));
    }
    e
}

/// Builds the full listing for the directory at `rel` from the enumerated
/// children, together with the display form of the current path.
pub fn build_listing(children: &Vec<ChildRecord>, rel: &str) -> (r: (Vec<Entry>, String))
    ensures
        models(r.0@) == listing_spec(child_models(children@), rel@),
        r.1@ == trim_leading_slashes(norm_slashes(rel@)),
{
    let ghost mapped = child_models(children@).map_values(
        |c: ChildModel| entry_of_child(c, rel@),
    );
    let mut raw: Vec<Entry> = Vec::new();
    let mut i: usize = 0;
    proof {
        assert(models(raw@) =~= mapped.take(0));
    }
    while i < children.len()
        invariant
            i <= children@.len(),
            mapped == child_models(children@).map_values(
                |c: ChildModel| entry_of_child(c, rel@),
            ),
            models(raw@) == mapped.take(i as int),
        decreases children@.len() - i,
    {
        let e = child_entry(&children[i], rel);
        let ghost rawpre = raw@;
        raw.push(e);
        proof {
            assert(child_models(children@)[i as int] == children@[i as int]@);
            assert(mapped[i as int] == entry_of_child(children@[i as int]@, rel@));
            assert(models(rawpre).len() == rawpre.len());
            assert(rawpre.len() == i as int);
            assert(models(raw@) =~= mapped.take(i + 1)) by {
                assert forall|p: int| 0 <= p < models(raw@).len() implies models(raw@)[p]
                    == mapped.take(i + 1)[p] by {
                    assert(models(raw@)[p] == raw@[p]@);
                    if p < i as int {
                        assert(raw@[p] == rawpre[p]);
                        assert(models(rawpre)[p] == rawpre[p]@);
                        assert(models(rawpre)[p] == mapped.take(i as int)[p]);
                        assert(mapped.take(i as int)[p] == mapped[p]);
                    } else {
                        assert(raw@[p] == e);
                    }
                    assert(mapped.take(i + 1)[p] == mapped[p]);
                }
            }
        }
        i = i + 1;
    }
    proof {
        assert(mapped.take(children@.len() as int) =~= mapped);
    }
    let mut sorted = sort_listing(raw);
    let current = display_path(rel);
    if rel.is_empty() {
        (sorted, current)
    } else {
        let p = parent_entry(rel);
        let mut out: Vec<Entry> = Vec::new();
        out.push(p);
        out.append(&mut sorted);
        proof {
            assert(models(out@) =~= seq![parent_entry_model(rel@)] + sort_entries(mapped)) by {
                assert forall|q: int| 0 <= q < models(out@).len() implies models(out@)[q] == (
                seq![parent_entry_model(rel@)] + sort_entries(mapped))[q] by {
                    assert(models(out@)[q] == out@[q]@);
                }
            }
        }
        (out, current)
    }
}

/// Law: outside the root the first row of a listing is always the `..`
/// parent link, whatever the children are and however they sort.
pub proof fn lemma_parent_entry_first(cs: Seq<ChildModel>, rel: Seq<char>)
    requires
        rel.len() > 0,
    ensures
        listing_spec(cs, rel).len() >= 1,
        listing_spec(cs, rel)[0] == parent_entry_model(rel),
        listing_spec(cs, rel)[0].name == seq!['.', '.'],
{
}

/// Law: a listing is deterministic — two listings of the same snapshot of
/// the same directory are identical, row for row.
pub proof fn lemma_listing_deterministic(
    cs1: Seq<ChildModel>,
    rel1: Seq<char>,
    cs2: Seq<ChildModel>,
    rel2: Seq<char>,
)
    requires
        cs1 == cs2,
        rel1 == rel2,
    ensures
        listing_spec(cs1, rel1) == listing_spec(cs2, rel2),
{
}

/// Law: the rows after the parent link are exactly the children's rows (as a
/// multiset), in listing order: directories before files, lowercase names
/// ascending within each class.
pub proof fn lemma_listing_children_ordered(cs: Seq<ChildModel>, rel: Seq<char>)
    ensures
        ({
            let rows = if rel.len() > 0 {
                listing_spec(cs, rel).skip(1)
            } else {
                listing_spec(cs, rel)
            };
            let mapped = cs.map_values(|c: ChildModel| entry_of_child(c, rel));
            crate::order::listing_sorted(rows) && rows.to_multiset() == mapped.to_multiset()
                && rows.len() == cs.len()
        }),
{
    let mapped = cs.map_values(|c: ChildModel| entry_of_child(c, rel));
    crate::order::lemma_sort_entries_ordered(mapped);
    if rel.len() > 0 {
        assert((seq![parent_entry_model(rel)] + sort_entries(mapped)).skip(1) =~= sort_entries(
            mapped,
        ));
    }
}

} // verus!
