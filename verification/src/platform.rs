//! Platform decisions: candidate drive names on Windows, the root path
//! each platform starts at, and the command that opens a directory in
//! the host's file manager. Probing the drives, asking the user to pick
//! one and spawning the opener are left to the surrounding program.
use vstd::prelude::*;

verus! {

/// The host platform, as far as these decisions care.
#[derive(Clone, Copy, PartialEq, Eq, Structural, Debug)]
pub enum Platform {
    Windows,
    MacOs,
    Unix,
    Unknown,
}

/// The drive name of letter index `i`: the letter, then a colon.
pub open spec fn spec_drive_name(i: int) -> Seq<char> {
    seq![((('A' as u8) + i) as char), ':']
}

/// The drive names of the set letters, in letter order.
pub open spec fn spec_drives(ex: Seq<bool>) -> Seq<Seq<char>>
    decreases ex.len(),
{
    if ex.len() == 0 {
        Seq::<Seq<char>>::empty()
    } else {
        spec_drives(ex.drop_last()) + if ex.last() {
            seq![spec_drive_name(ex.len() - 1)]
        } else {
            Seq::<Seq<char>>::empty()
        }
    }
}

/// The drive names `A:` through `Z:` whose letter is marked present.
/// Two-letter drive names are not covered.
pub fn list_of_available_drives(present: &Vec<bool>) -> (list: Vec<String>)
    requires
        present@.len() == 26,
    ensures
        list.deep_view() == spec_drives(present@),
{
    let mut list: Vec<String> = Vec::new();
    let mut i: usize = 0;
    while i < 26
        invariant
            present@.len() == 26,
            0 <= i <= 26,
            list.deep_view() == spec_drives(present@.take(i as int)),
        decreases 26 - i,
    {
        proof {
            assert(present@.take(i + 1).drop_last() =~= present@.take(i as int));
            assert(present@.take(i + 1).last() == present@[i as int]);
        }
        if present[i] {
            let mut drive = String::new();
            drive.push((65 + i as u8) as char);
            drive.push(':');
            proof {
                assert(drive@ =~= spec_drive_name(i as int));
            }
            list.push(drive);
            proof {
                assert(list.deep_view() =~= spec_drives(present@.take(i + 1)));
            }
        } else {
            proof {
                assert(list.deep_view() =~= spec_drives(present@.take(i + 1)));
            }
        }
        i = i + 1;
    }
    proof {
        assert(present@.take(26) =~= present@);
    }
    list
}

/// The root path of the session: the selected drive with a trailing
/// backslash on Windows, the filesystem root on the Unix-likes. An
/// unknown platform has no root and is refused at startup.
pub fn get_root_drive(platform: Platform, selected: &str) -> (r: String)
    requires
        !(platform is Unknown),
    ensures
        platform is Windows ==> r@ == selected@.push('\\'),
        !(platform is Windows) ==> r@ == "/"@,
{
    match platform {
        Platform::Windows => {
            let mut s = selected.to_owned();
            s.push('\\');
            s
        },
        _ => "/".to_owned(),
    }
}

/// The program that opens a directory in the host's file manager, or
/// nothing on a platform without one.
pub fn open_command(platform: Platform) -> (r: Option<&'static str>)
    ensures
        platform is Windows ==> (r matches Some(c) && c@ == "explorer"@),
        platform is MacOs ==> (r matches Some(c) && c@ == "open"@),
        platform is Unix ==> (r matches Some(c) && c@ == "xdg-open"@),
        platform is Unknown ==> r is None,
{
    match platform {
        Platform::Windows => Some("explorer"),
        Platform::MacOs => Some("open"),
        Platform::Unix => Some("xdg-open"),
        Platform::Unknown => None,
    }
}

} // verus!
