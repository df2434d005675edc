//! The line editor's decision logic: how one keystroke changes the
//! command buffer, and tab completion of a `cd` argument against the
//! identifiers of the current directory's children.
use vstd::prelude::*;

use crate::commands::{spec_command_of, Commands, ToCommand};
use crate::filesystem_entry::FileSystemEntry;
use crate::text::{ci_eq, ci_prefix, str_eq_ci, str_prefix_ci};

verus! {

/// One keystroke, as the terminal reports it.
#[derive(Clone, Copy, PartialEq, Eq, Structural, Debug)]
pub enum Key {
    Backspace,
    Tab,
    Enter,
    Char(char),
    Other,
}

/// The first item, in order, whose lower-cased form starts with the
/// lower-cased partial string without being equal to it; the partial
/// string itself when no item qualifies.
pub open spec fn spec_tab_complete(cur: Seq<char>, items: Seq<Seq<char>>) -> Seq<char>
    decreases items.len(),
{
    if items.len() == 0 {
        cur
    } else if !ci_eq(items[0], cur) && ci_prefix(cur, items[0]) {
        items[0]
    } else {
        spec_tab_complete(cur, items.drop_first())
    }
}

/// Skipping items that do not qualify does not change the completion.
proof fn lemma_tab_complete_skip(cur: Seq<char>, items: Seq<Seq<char>>, j: int)
    requires
        0 <= j <= items.len(),
        forall|k: int|
            0 <= k < j ==> ci_eq(#[trigger] items[k], cur) || !ci_prefix(cur, items[k]),
    ensures
        spec_tab_complete(cur, items) == spec_tab_complete(cur, items.skip(j)),
    decreases j,
{
    if j > 0 {
        assert(items.skip(0) =~= items);
        assert(items.drop_first().skip(j - 1) =~= items.skip(j));
        assert(forall|k: int|
            0 <= k < j - 1 ==> items.drop_first()[k] == #[trigger] items[k + 1]);
        lemma_tab_complete_skip(cur, items.drop_first(), j - 1);
    } else {
        assert(items.skip(0) =~= items);
    }
}

/// The identifiers of a children list.
pub open spec fn spec_identifiers(s: Seq<FileSystemEntry>) -> Seq<Seq<char>> {
    s.map_values(|c: FileSystemEntry| c.identifier@)
}

/// What one tab keystroke makes of the buffer: when the buffer holds a
/// `cd` command with at least one character of prefix after the verb,
/// the prefix is completed against the children of the current entry;
/// any other buffer is left alone.
pub open spec fn spec_tab(buf: Seq<char>, current: FileSystemEntry) -> Seq<char> {
    if current.entry_type is Directory && spec_command_of(buf) is ChangeDirectory && buf.len()
        >= 4 {
        "cd "@ + spec_tab_complete(buf.skip(3), spec_identifiers(current.children@))
    } else {
        buf
    }
}

/// Complete a partial string against the candidate items.
pub fn tab_complete(current_str: &str, possible_items: Vec<String>) -> (r: String)
    ensures
        r@ == spec_tab_complete(current_str@, possible_items.deep_view()),
{
    let ghost items = possible_items.deep_view();
    let mut j: usize = 0;
    while j < possible_items.len()
        invariant
            items == possible_items.deep_view(),
            items.len() == possible_items@.len(),
            forall|k: int| 0 <= k < items.len() ==> items[k] == #[trigger] possible_items@[k]@,
            0 <= j <= items.len(),
            forall|k: int|
                0 <= k < j ==> ci_eq(#[trigger] items[k], current_str@) || !ci_prefix(
                    current_str@,
                    items[k],
                ),
        decreases items.len() - j,
    {
        let item = &possible_items[j];
        if !str_eq_ci(item.as_str(), current_str) && str_prefix_ci(current_str, item.as_str()) {
            proof {
                lemma_tab_complete_skip(current_str@, items, j as int);
                assert(items.skip(j as int)[0] == items[j as int]);
                assert(spec_tab_complete(current_str@, items.skip(j as int)) == items[j as int]);
            }
            return item.clone();
        }
        j = j + 1;
    }
    proof {
        lemma_tab_complete_skip(current_str@, items, items.len() as int);
        assert(items.skip(items.len() as int) =~= Seq::<Seq<char>>::empty());
    }
    current_str.to_owned()
}

/// Complete the buffer in place when it holds a partial `cd` command.
pub fn tab(cmd: &mut String, current: &FileSystemEntry)
    ensures
        final(cmd)@ == spec_tab(old(cmd)@, *current),
{
    match current.children() {
        Option::Some(children) => {
            let parsed = cmd.to_command();
            match parsed.command {
                Commands::ChangeDirectory => {
                    let n = cmd.as_str().unicode_len();
                    if n < 4 {
                        return ;
                    }
                    let partial = cmd.as_str().substring_char(3, n);
                    let mut identifiers: Vec<String> = Vec::new();
                    let mut i: usize = 0;
                    while i < children.len()
                        invariant
                            0 <= i <= children@.len(),
                            identifiers.deep_view().len() == i,
                            forall|k: int|
                                0 <= k < i ==> identifiers.deep_view()[k] == #[trigger] (
                                children@[k].identifier@),
                        decreases children@.len() - i,
                    {
                        identifiers.push(children[i].identifier.clone());
                        i = i + 1;
                    }
                    proof {
                        assert(identifiers.deep_view() =~= spec_identifiers(children@));
                        assert(partial@ == old(cmd)@.skip(3));
                    }
                    let completed = tab_complete(partial, identifiers);
                    let mut replaced = "cd ".to_owned();
                    replaced.append(completed.as_str());
                    *cmd = replaced;
                    assert(cmd@ =~= spec_tab(old(cmd)@, *current));
                },
                _ => {
                    return ;
                },
            }
        },
        Option::None => {
        },
    }
}

/// Apply one keystroke to the command buffer: printable characters are
/// appended, backspace removes the last character, tab completes a `cd`
/// prefix, enter finishes the line, anything else is ignored. The result
/// says whether the line is finished.
pub fn edit_step(cmd: &mut String, key: Key, current: &FileSystemEntry) -> (done: bool)
    ensures
        key is Enter ==> done && final(cmd)@ == old(cmd)@,
        key is Backspace ==> !done && final(cmd)@ == if old(cmd)@.len() > 0 {
            old(cmd)@.drop_last()
        } else {
            old(cmd)@
        },
        key is Tab ==> !done && final(cmd)@ == spec_tab(old(cmd)@, *current),
        key is Other ==> !done && final(cmd)@ == old(cmd)@,
        key matches Key::Char(c) ==> !done && final(cmd)@ == if c == '\t' {
            spec_tab(old(cmd)@, *current)
        } else {
            old(cmd)@.push(c)
        },
{
    match key {
        Key::Enter => true,
        Key::Backspace => {
            if cmd.unicode_len() > 0 {
                cmd.pop();
            }
            false
        },
        Key::Tab => {
            tab(cmd, current);
            false
        },
        Key::Char(c) => {
            if c == '\t' {
                tab(cmd, current);
            } else {
                cmd.push(c);
            }
            false
        },
        Key::Other => false,
    }
}

} // verus!
