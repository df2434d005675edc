//! The filesystem tree model: the node type, the recursive build of a
//! scanned subtree from a raw directory listing, bottom-up size
//! aggregation, the hidden-name filter, and the sorted rendering of one
//! directory level.
pub mod filesystem_entry_extensions;
pub mod filesystem_entry_type;

use vstd::prelude::*;

use crate::filesystem_entry::filesystem_entry_extensions::{bytes_to_readable, spec_readable};
use crate::filesystem_entry::filesystem_entry_type::{spec_glyph, FileSystemEntryType};
use crate::text::{str_eq, vec_contains_string};

verus! {

pub struct FileSystemEntry {
    pub identifier: String,
    pub path_string: String,
    pub entry_type: FileSystemEntryType,
    pub len: u64,
    pub children: Vec<FileSystemEntry>,
}

/// What the operating system reported for one entry of a directory
/// listing, before any filtering: its name, whether its metadata could be
/// read, and, when it could, its kind and byte length, with the listing
/// of its own directory entries below it. A failed enumeration leaves
/// `children` empty, exactly as an empty directory does.
pub struct RawEntry {
    pub name: String,
    pub meta_ok: bool,
    pub is_dir: bool,
    pub len: u64,
    pub children: Vec<RawEntry>,
}

/// A name the scan excludes: it starts with `$` or `.`, or it is the
/// literal `System Volume Information`.
pub open spec fn excluded_name(name: Seq<char>) -> bool {
    (name.len() > 0 && (name[0] == '$' || name[0] == '.')) || name
        == "System Volume Information"@
}

/// Addition capped at the largest 64-bit value.
pub open spec fn sat_add64(a: int, b: int) -> int {
    if a + b > u64::MAX {
        u64::MAX as int
    } else {
        a + b
    }
}

/// The stored lengths of the entries, summed left to right, capped at the
/// largest 64-bit value.
pub open spec fn sum_children_len(s: Seq<FileSystemEntry>) -> int
    decreases s.len(),
{
    if s.len() == 0 {
        0
    } else {
        sat_add64(sum_children_len(s.drop_last()), s.last().len as int)
    }
}

/// The recursively computed size of an entry: the stored length of a
/// file, the capped sum of the sizes of a directory's children.
pub open spec fn spec_size(e: FileSystemEntry) -> int
    decreases e,
{
    match e.entry_type {
        FileSystemEntryType::File => e.len as int,
        FileSystemEntryType::Directory => sum_sizes(e.children@),
    }
}

pub open spec fn sum_sizes(s: Seq<FileSystemEntry>) -> int
    decreases s,
{
    if s.len() == 0 {
        0
    } else {
        sat_add64(sum_sizes(s.drop_last()), spec_size(s.last()))
    }
}

/// The exact total of the lengths of all files reachable from an entry,
/// without any cap.
pub open spec fn total_file_size(e: FileSystemEntry) -> int
    decreases e,
{
    match e.entry_type {
        FileSystemEntryType::File => e.len as int,
        FileSystemEntryType::Directory => total_file_sizes(e.children@),
    }
}

pub open spec fn total_file_sizes(s: Seq<FileSystemEntry>) -> int
    decreases s,
{
    if s.len() == 0 {
        0
    } else {
        total_file_sizes(s.drop_last()) + total_file_size(s.last())
    }
}

/// A tree as the scan leaves it: files have no children, every
/// directory's stored length is the capped sum of its children's, and no
/// child anywhere bears an excluded name.
pub open spec fn scanned(e: FileSystemEntry) -> bool
    decreases e,
{
    match e.entry_type {
        FileSystemEntryType::File => e.children@.len() == 0,
        FileSystemEntryType::Directory => e.len as int == sum_children_len(e.children@)
            && (forall|i: int|
            0 <= i < e.children@.len() ==> !excluded_name(
                #[trigger] e.children@[i].identifier@,
            )) && (forall|i: int|
            0 <= i < e.children@.len() ==> scanned(#[trigger] e.children@[i])),
    }
}

/// A parent path joined with a child name: the separator is inserted
/// unless the parent already ends with it.
pub open spec fn join_path(parent: Seq<char>, sep: char, name: Seq<char>) -> Seq<char> {
    if parent.len() > 0 && parent.last() == sep {
        parent + name
    } else {
        parent + seq![sep] + name
    }
}

/// `e` is the entry the scan builds from the raw listing entry `raw`
/// under the given parent path: metadata failures become zero-length
/// files, directories carry the filtered build of their listing and the
/// capped sum of the children's lengths.
pub open spec fn builds_to(raw: RawEntry, e: FileSystemEntry, parent: Seq<char>, sep: char) -> bool
    decreases raw,
{
    e.identifier@ == raw.name@ && e.path_string@ == join_path(parent, sep, raw.name@) && if raw.meta_ok
        && raw.is_dir {
        e.entry_type is Directory && children_build_to(
            raw.children@,
            e.children@,
            join_path(parent, sep, raw.name@),
            sep,
        ) && e.len as int == sum_children_len(e.children@)
    } else {
        e.entry_type is File && e.children@.len() == 0 && e.len == if raw.meta_ok {
            raw.len
        } else {
            0
        }
    }
}

/// `es` is the filtered, in-order build of the raw listing `raws`:
/// entries with excluded names are dropped, every other entry builds to
/// the corresponding element of `es`.
pub open spec fn children_build_to(
    raws: Seq<RawEntry>,
    es: Seq<FileSystemEntry>,
    parent: Seq<char>,
    sep: char,
) -> bool
    decreases raws,
{
    if raws.len() == 0 {
        es.len() == 0
    } else if excluded_name(raws.last().name@) {
        children_build_to(raws.drop_last(), es, parent, sep)
    } else {
        es.len() > 0 && children_build_to(raws.drop_last(), es.drop_last(), parent, sep)
            && builds_to(raws.last(), es.last(), parent, sep)
    }
}

/// What one child contributes to a rendered level: its kind, its name,
/// its stored length and its full path.
pub type FileSystemEntryChildrenView = (FileSystemEntryType, String, u64, String);

/// The view tuple of one entry.
pub open spec fn child_view(c: FileSystemEntry) -> FileSystemEntryChildrenView {
    (c.entry_type, c.identifier, c.len, c.path_string)
}

/// Sizes are non-decreasing from the first line to the last.
pub open spec fn sorted_by_len(s: Seq<FileSystemEntryChildrenView>) -> bool {
    forall|a: int, b: int| 0 <= a <= b < s.len() ==> s[a].2 <= s[b].2
}

/// One line of a rendered directory level: its text, whether the entry
/// it shows has been visited, and the size it shows.
pub struct RenderedLine {
    pub text: String,
    pub visited: bool,
    pub size: u64,
}

/// The text of one rendered line: the kind glyph, the identifier, and
/// the human-readable size in parentheses.
pub open spec fn spec_line_text(v: FileSystemEntryChildrenView) -> Seq<char> {
    seq![' '] + spec_glyph(v.0) + seq![' ', ' '] + v.1@ + seq![' ', '('] + spec_readable(v.2)
        + seq![')']
}

/// Format one child view as its listing line.
pub fn format_line(v: &FileSystemEntryChildrenView) -> (r: String)
    ensures
        r@ == spec_line_text(*v),
{
    let mut s = String::new();
    s.push(' ');
    s.append(v.0.glyph());
    s.push(' ');
    s.push(' ');
    s.append(v.1.as_str());
    s.push(' ');
    s.push('(');
    s.append(bytes_to_readable(v.2).as_str());
    s.push(')');
    assert(s@ =~= spec_line_text(*v));
    s
}

/// Render one directory level from its sorted child views: each line
/// keeps its view's size and is marked visited exactly when its path is
/// in the visited list.
pub fn render(views: &Vec<FileSystemEntryChildrenView>, visited_list: &Vec<String>) -> (r: Vec<
    RenderedLine,
>)
    ensures
        r@.len() == views@.len(),
        forall|i: int|
            0 <= i < views@.len() ==> (#[trigger] r@[i]).text@ == spec_line_text(views@[i])
                && r@[i].visited == visited_list.deep_view().contains(views@[i].3@) && r@[i].size
                == views@[i].2,
{
    let mut r: Vec<RenderedLine> = Vec::new();
    let mut i: usize = 0;
    while i < views.len()
        invariant
            0 <= i <= views@.len(),
            r@.len() == i,
            forall|j: int|
                0 <= j < i ==> (#[trigger] r@[j]).text@ == spec_line_text(views@[j])
                    && r@[j].visited == visited_list.deep_view().contains(views@[j].3@)
                    && r@[j].size == views@[j].2,
        decreases views@.len() - i,
    {
        let text = format_line(&views[i]);
        let vis = vec_contains_string(visited_list, views[i].3.as_str());
        r.push(RenderedLine { text, visited: vis, size: views[i].2 });
        i = i + 1;
    }
    r
}

/// Whether the scan excludes this name.
pub fn name_excluded(name: &str) -> (r: bool)
    ensures
        r == excluded_name(name@),
{
    let n = name.unicode_len();
    if n > 0 {
        let c = name.get_char(0);
        if c == '$' || c == '.' {
            return true;
        }
    }
    str_eq(name, "System Volume Information")
}

/// Join a parent path and a child name with the separator.
pub fn join_path_exec(parent: &str, sep: char, name: &str) -> (r: String)
    ensures
        r@ == join_path(parent@, sep, name@),
{
    let n = parent.unicode_len();
    let mut r = parent.to_owned();
    if !(n > 0 && parent.get_char(n - 1) == sep) {
        r.push(sep);
    }
    r.append(name);
    assert(r@ =~= join_path(parent@, sep, name@));
    r
}

/// The capped sum of the stored lengths of the entries.
pub fn sum_lens(children: &Vec<FileSystemEntry>) -> (r: u64)
    ensures
        r as int == sum_children_len(children@),
{
    let mut acc: u64 = 0;
    let mut i: usize = 0;
    while i < children.len()
        invariant
            0 <= i <= children@.len(),
            acc as int == sum_children_len(children@.take(i as int)),
        decreases children@.len() - i,
    {
        let l = children[i].len;
        proof {
            assert(children@.take(i + 1).drop_last() =~= children@.take(i as int));
            assert(children@.take(i + 1).last() == children@[i as int]);
        }
        if acc <= u64::MAX - l {
            acc = acc + l;
        } else {
            acc = u64::MAX;
        }
        i = i + 1;
    }
    assert(children@.take(children@.len() as int) =~= children@);
    acc
}

fn build_children(raws: &Vec<RawEntry>, parent: &str, sep: char) -> (es: Vec<FileSystemEntry>)
    ensures
        children_build_to(raws@, es@, parent@, sep),
    decreases raws@, 1int,
{
    let mut es: Vec<FileSystemEntry> = Vec::new();
    let mut i: usize = 0;
    while i < raws.len()
        invariant
            0 <= i <= raws@.len(),
            children_build_to(raws@.take(i as int), es@, parent@, sep),
        decreases raws@.len() - i,
    {
        proof {
            assert(raws@.take(i + 1).drop_last() =~= raws@.take(i as int));
            assert(raws@.take(i + 1).last() == raws@[i as int]);
        }
        if !name_excluded(raws[i].name.as_str()) {
            proof {
                assert(decreases_to!(raws@ => raws@[i as int]));
            }
            let e = build_entry(&raws[i], parent, sep);
            let ghost prev = es@;
            es.push(e);
            proof {
                assert(es@.drop_last() =~= prev);
            }
        }
        i = i + 1;
    }
    assert(raws@.take(raws@.len() as int) =~= raws@);
    es
}

fn build_entry(raw: &RawEntry, parent: &str, sep: char) -> (e: FileSystemEntry)
    ensures
        builds_to(*raw, e, parent@, sep),
    decreases *raw, 0int,
{
    let path = join_path_exec(parent, sep, raw.name.as_str());
    if raw.meta_ok && raw.is_dir {
        proof {
            assert(decreases_to!(*raw => raw.children));
            assert(decreases_to!(raw.children => raw.children@));
        }
        let children = build_children(&raw.children, path.as_str(), sep);
        let len = sum_lens(&children);
        FileSystemEntry {
            identifier: raw.name.clone(),
            path_string: path,
            entry_type: FileSystemEntryType::Directory,
            len,
            children,
        }
    } else {
        let len: u64 = if raw.meta_ok {
            raw.len
        } else {
            0
        };
        FileSystemEntry {
            identifier: raw.name.clone(),
            path_string: path,
            entry_type: FileSystemEntryType::File,
            len,
            children: Vec::new(),
        }
    }
}

/// Everything a build delivers is a scanned tree.
pub proof fn lemma_build_scanned(raw: RawEntry, e: FileSystemEntry, parent: Seq<char>, sep: char)
    requires
        builds_to(raw, e, parent, sep),
    ensures
        scanned(e),
    decreases raw, 0int,
{
    if raw.meta_ok && raw.is_dir {
        lemma_children_scanned(raw.children@, e.children@, join_path(parent, sep, raw.name@), sep);
    }
}

/// Every entry of a built children list is a scanned tree without an
/// excluded name.
pub proof fn lemma_children_scanned(
    raws: Seq<RawEntry>,
    es: Seq<FileSystemEntry>,
    parent: Seq<char>,
    sep: char,
)
    requires
        children_build_to(raws, es, parent, sep),
    ensures
        forall|i: int|
            0 <= i < es.len() ==> scanned(#[trigger] es[i]) && !excluded_name(es[i].identifier@),
    decreases raws, 1int,
{
    if raws.len() == 0 {
    } else if excluded_name(raws.last().name@) {
        lemma_children_scanned(raws.drop_last(), es, parent, sep);
    } else {
        lemma_children_scanned(raws.drop_last(), es.drop_last(), parent, sep);
        lemma_build_scanned(raws.last(), es.last(), parent, sep);
        assert forall|i: int|
            0 <= i < es.len() implies scanned(#[trigger] es[i]) && !excluded_name(
            es[i].identifier@,
        ) by {
            if i < es.len() - 1 {
                assert(es.drop_last()[i] == es[i]);
                assert(scanned(es.drop_last()[i]));
                assert(!excluded_name(es.drop_last()[i].identifier@));
            } else {
                assert(es[i] == es.last());
                assert(builds_to(raws.last(), es.last(), parent, sep));
                assert(es.last().identifier@ == raws.last().name@);
            }
            assert(scanned(es[i]));
            assert(!excluded_name(es[i].identifier@));
        }
    }
}

/// Size aggregation: in a scanned tree the stored length of every
/// directory is the capped sum of its children's, and when the exact
/// total of all reachable file lengths fits in 64 bits, the stored length
/// is exactly that total.
pub proof fn lemma_size_aggregation(e: FileSystemEntry)
    requires
        scanned(e),
        total_file_size(e) <= u64::MAX,
    ensures
        e.entry_type is Directory ==> e.len as int == sum_children_len(e.children@),
        e.len as int == total_file_size(e),
    decreases e, 0int,
{
    if e.entry_type is Directory {
        lemma_sizes_aggregation(e.children@);
    }
}

pub proof fn lemma_sizes_aggregation(s: Seq<FileSystemEntry>)
    requires
        forall|i: int| 0 <= i < s.len() ==> scanned(#[trigger] s[i]),
        total_file_sizes(s) <= u64::MAX,
    ensures
        sum_children_len(s) == total_file_sizes(s),
    decreases s, 1int,
{
    if s.len() > 0 {
        assert(forall|i: int|
            0 <= i < s.len() - 1 ==> s[i] == #[trigger] s.drop_last()[i]);
        assert(total_file_size(s.last()) >= 0) by {
            lemma_total_file_size_nonneg(s.last());
        }
        assert(total_file_sizes(s.drop_last()) >= 0) by {
            lemma_total_file_sizes_nonneg(s.drop_last());
        }
        lemma_sizes_aggregation(s.drop_last());
        lemma_size_aggregation_node(s.last());
    }
}

proof fn lemma_size_aggregation_node(e: FileSystemEntry)
    requires
        scanned(e),
        total_file_size(e) <= u64::MAX,
    ensures
        e.len as int == total_file_size(e),
    decreases e, 0int,
{
    lemma_total_file_size_nonneg(e);
    if e.entry_type is Directory {
        lemma_sizes_aggregation(e.children@);
    }
}

pub proof fn lemma_total_file_size_nonneg(e: FileSystemEntry)
    ensures
        total_file_size(e) >= 0,
    decreases e, 0int,
{
    if e.entry_type is Directory {
        lemma_total_file_sizes_nonneg(e.children@);
    }
}

pub proof fn lemma_total_file_sizes_nonneg(s: Seq<FileSystemEntry>)
    ensures
        total_file_sizes(s) >= 0,
    decreases s, 1int,
{
    if s.len() > 0 {
        lemma_total_file_sizes_nonneg(s.drop_last());
        lemma_total_file_size_nonneg(s.last());
    }
}

impl FileSystemEntry {
    pub fn new(name: &str, path: &str, entry_type: FileSystemEntryType, size: u64) -> (e:
        FileSystemEntry)
        ensures
            e.identifier@ == name@,
            e.path_string@ == path@,
            e.entry_type == entry_type,
            e.len == size,
            e.children@.len() == 0,
    {
        FileSystemEntry {
            identifier: name.to_owned(),
            path_string: path.to_owned(),
            entry_type,
            len: size,
            children: Vec::new(),
        }
    }

    /// The root entry for a drive or filesystem root: a directory whose
    /// name and path are the root path itself.
    pub fn from_drive(drive: &str) -> (e: FileSystemEntry)
        ensures
            e.identifier@ == drive@,
            e.path_string@ == drive@,
            e.entry_type is Directory,
            e.len == 0,
            e.children@.len() == 0,
    {
        FileSystemEntry::new(drive, drive, FileSystemEntryType::Directory, 0)
    }

    /// Build this directory's subtree from the raw listing of its
    /// entries: hidden and system names are dropped, metadata failures
    /// become zero-length files, and every directory's length, this one's
    /// included, becomes the capped sum of its children's.
    pub fn scan(&mut self, raws: &Vec<RawEntry>, sep: char)
        requires
            old(self).entry_type is Directory,
        ensures
            final(self).identifier == old(self).identifier,
            final(self).path_string == old(self).path_string,
            final(self).entry_type == old(self).entry_type,
            children_build_to(raws@, final(self).children@, old(self).path_string@, sep),
            final(self).len as int == sum_children_len(final(self).children@),
            scanned(*final(self)),
    {
        let children = build_children(raws, self.path_string.as_str(), sep);
        let len = sum_lens(&children);
        self.children = children;
        self.len = len;
        proof {
            lemma_children_scanned(raws@, self.children@, self.path_string@, sep);
        }
    }

    /// The recursively computed size of this entry.
    pub fn size(&self) -> (r: u64)
        ensures
            r as int == spec_size(*self),
        decreases *self,
    {
        match self.entry_type {
            FileSystemEntryType::File => self.len,
            FileSystemEntryType::Directory => {
                let mut sum: u64 = 0;
                let mut i: usize = 0;
                while i < self.children.len()
                    invariant
                        0 <= i <= self.children@.len(),
                        sum as int == sum_sizes(self.children@.take(i as int)),
                    decreases self.children@.len() - i,
                {
                    proof {
                        assert(self.children@.take(i + 1).drop_last() =~= self.children@.take(
                            i as int,
                        ));
                        assert(self.children@.take(i + 1).last() == self.children@[i as int]);
                        assert(decreases_to!(*self => self.children@[i as int]));
                    }
                    let s = self.children[i].size();
                    if sum <= u64::MAX - s {
                        sum = sum + s;
                    } else {
                        sum = u64::MAX;
                    }
                    i = i + 1;
                }
                assert(self.children@.take(self.children@.len() as int) =~= self.children@);
                sum
            },
        }
    }

    /// The view tuples of this entry's children, sorted ascending by
    /// stored length; a permutation of the children, in rendering order.
    pub fn sorted_children_view(&self) -> (r: Vec<FileSystemEntryChildrenView>)
        ensures
            r@.to_multiset() == self.children@.map_values(
                |c: FileSystemEntry| child_view(c),
            ).to_multiset(),
            sorted_by_len(r@),
    {
        broadcast use vstd::seq_lib::group_to_multiset_ensures;
        broadcast use vstd::multiset::group_multiset_axioms;

        let mut work: Vec<FileSystemEntryChildrenView> = Vec::new();
        let mut i: usize = 0;
        while i < self.children.len()
            invariant
                0 <= i <= self.children@.len(),
                work@.len() == i,
                forall|j: int| 0 <= j < i ==> work@[j] == child_view(#[trigger] self.children@[j]),
            decreases self.children@.len() - i,
        {
            let c = &self.children[i];
            work.push((c.entry_type, c.identifier.clone(), c.len, c.path_string.clone()));
            i = i + 1;
        }
        proof {
            assert(work@ =~= self.children@.map_values(|c: FileSystemEntry| child_view(c)));
        }
        let ghost orig = work@.to_multiset();
        let mut out: Vec<FileSystemEntryChildrenView> = Vec::new();
        while work.len() > 0
            invariant
                out@.to_multiset().add(work@.to_multiset()) =~= orig,
                sorted_by_len(out@),
                forall|a: int, b: int|
                    0 <= a < out@.len() && 0 <= b < work@.len() ==> #[trigger] (out@[a].2)
                        <= #[trigger] (work@[b].2),
            decreases work@.len(),
        {
            let mut m: usize = 0;
            let mut k: usize = 1;
            while k < work.len()
                invariant
                    0 <= m < work@.len(),
                    1 <= k <= work@.len(),
                    forall|j: int| 0 <= j < k ==> work@[m as int].2 <= #[trigger] (work@[j].2),
                decreases work@.len() - k,
            {
                if work[k].2 < work[m].2 {
                    m = k;
                }
                k = k + 1;
            }
            let ghost wpre = work@;
            let x = work.remove(m);
            let ghost opre = out@;
            out.push(x);
            proof {
                wpre.to_multiset_ensures();
                opre.to_multiset_ensures();
                assert(wpre.contains(x));
                assert(wpre.to_multiset().count(x) >= 1);
                assert(work@ == wpre.remove(m as int));
                assert(wpre.remove(m as int).to_multiset() == wpre.to_multiset().remove(x));
                assert(work@.to_multiset() =~= wpre.to_multiset().remove(x));
                assert(out@.to_multiset() =~= opre.to_multiset().insert(x));
                assert(out@.to_multiset().add(work@.to_multiset()) =~= orig);
                assert(forall|b: int|
                    0 <= b < work@.len() ==> work@[b] == wpre[b] || work@[b] == #[trigger] (wpre[
                    b + 1]));
                assert(forall|a: int|
                    0 <= a < opre.len() ==> out@[a] == #[trigger] opre[a]);
                assert(out@.last() == x);
                assert(forall|a: int, b: int|
                    0 <= a < out@.len() && 0 <= b < work@.len() ==> #[trigger] (out@[a].2)
                        <= #[trigger] (work@[b].2));
                assert(sorted_by_len(out@));
            }
        }
        proof {
            work@.to_multiset_ensures();
            assert forall|v: FileSystemEntryChildrenView|
                out@.to_multiset().count(v) == orig.count(v) by {
                assert(!work@.contains(v));
                assert(work@.to_multiset().count(v) == 0);
            }
            assert(out@.to_multiset() =~= orig);
        }
        out
    }

    /// The children of a directory; a file has none, which is distinct
    /// from an empty directory.
    pub fn children(&self) -> (r: Option<&Vec<FileSystemEntry>>)
        ensures
            (self.entry_type is Directory) == (r is Some),
            r matches Some(c) ==> c == &self.children,
    {
        match self.entry_type {
            FileSystemEntryType::File => None,
            FileSystemEntryType::Directory => Some(&self.children),
        }
    }
}

} // verus!
