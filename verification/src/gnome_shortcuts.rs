//! The GNOME custom keybinding that toggles voice input: the invocation it
//! runs, the message that invocation sends to the running client, and the
//! desktop check that selects this route.
use vstd::prelude::*;
use crate::text::{chars_equal, chars_of, lower_seq, lowercase_chars, split_chars, split_on, str_equal};

verus! {

/// The argument with which the keybinding starts the client.
pub const TOGGLE_ARGUMENT: &'static str = "--toggle-running";

/// Where the client's keybinding is stored in GNOME's settings.
pub const CUSTOM_KEYBINDING_PATH: &'static str = "/org/gnome/settings-daemon/plugins/media-keys/custom-keybindings/doubao-voice-client/";

/// Whether the command line is the keybinding's invocation: the executable
/// followed by the toggle argument and nothing else.
pub fn is_toggle_invocation(args: &Vec<String>) -> (r: bool)
    ensures
        r == (args@.len() == 2 && args@[1]@ == TOGGLE_ARGUMENT@),
{
    args.len() == 2 && str_equal(args[1].as_str(), TOGGLE_ARGUMENT)
}

/// Whether a datagram is the toggle message.
pub fn is_toggle_message(message: &[u8]) -> (r: bool)
    ensures
        r == (message@ == seq![0x74u8, 0x6fu8, 0x67u8, 0x67u8, 0x6cu8, 0x65u8]),
{
    if message.len() != 6 {
        return false;
    }
    let r = message[0] == 0x74 && message[1] == 0x6f && message[2] == 0x67 && message[3] == 0x67
        && message[4] == 0x6c && message[5] == 0x65;
    proof {
        if r {
            assert(message@ =~= seq![0x74u8, 0x6fu8, 0x67u8, 0x67u8, 0x6cu8, 0x65u8]);
        }
    }
    r
}

/// The toggle message's bytes (`toggle` in ASCII).
pub fn toggle_message() -> (m: Vec<u8>)
    ensures
        m@ == seq![0x74u8, 0x6fu8, 0x67u8, 0x67u8, 0x6cu8, 0x65u8],
{
    let mut m: Vec<u8> = Vec::new();
    m.push(0x74);
    m.push(0x6f);
    m.push(0x67);
    m.push(0x67);
    m.push(0x6c);
    m.push(0x65);
    m
}

/// Whether `XDG_CURRENT_DESKTOP` names GNOME among its colon-separated
/// entries, without regard to ASCII case.
pub open spec fn names_gnome(desktop: Seq<char>) -> bool {
    exists|i: int| 0 <= i < split_on(desktop, ':').len()
        && lower_seq(#[trigger] split_on(desktop, ':')[i]) == seq!['g', 'n', 'o', 'm', 'e']
}

pub fn is_gnome_desktop(desktop: &str) -> (r: bool)
    ensures
        r == names_gnome(desktop@),
{
    let chars = chars_of(desktop);
    let (done, last) = split_chars(&chars, ':');
    let gnome = chars_of("gnome");
    proof {
        reveal_strlit("gnome");
        assert(gnome@ =~= seq!['g', 'n', 'o', 'm', 'e']);
    }
    let ghost pieces = split_on(desktop@, ':');
    assert(pieces == done@.map_values(|p: Vec<char>| p@).push(last@));
    let mut k: usize = 0;
    while k < done.len()
        invariant
            k <= done@.len(),
            pieces == done@.map_values(|p: Vec<char>| p@).push(last@),
            pieces == split_on(desktop@, ':'),
            gnome@ == seq!['g', 'n', 'o', 'm', 'e'],
            forall|j: int| 0 <= j < k ==> lower_seq(#[trigger] pieces[j]) != seq!['g', 'n', 'o', 'm', 'e'],
        decreases done@.len() - k,
    {
        let lowered = lowercase_chars(&done[k]);
        assert(pieces[k as int] == done@[k as int]@);
        if chars_equal(&lowered, &gnome) {
            assert(lower_seq(pieces[k as int]) == seq!['g', 'n', 'o', 'm', 'e']);
            return true;
        }
        k = k + 1;
    }
    let lowered = lowercase_chars(&last);
    assert(pieces[done@.len() as int] == last@);
    chars_equal(&lowered, &gnome)
}

/// The keybinding paths with the client's path added; `None` when it is
/// already registered.
pub fn with_client_keybinding(paths: &Vec<String>) -> (r: Option<Vec<String>>)
    ensures
        match r {
            None => exists|i: int| 0 <= i < paths@.len() && (#[trigger] paths@[i])@ == CUSTOM_KEYBINDING_PATH@,
            Some(updated) => (forall|i: int| 0 <= i < paths@.len() ==> (#[trigger] paths@[i])@ != CUSTOM_KEYBINDING_PATH@)
                && updated@.len() == paths@.len() + 1
                && (forall|i: int| 0 <= i < paths@.len() ==> (#[trigger] updated@[i])@ == paths@[i]@)
                && updated@[paths@.len() as int]@ == CUSTOM_KEYBINDING_PATH@,
        },
{
    let mut k: usize = 0;
    while k < paths.len()
        invariant
            k <= paths@.len(),
            forall|j: int| 0 <= j < k ==> (#[trigger] paths@[j])@ != CUSTOM_KEYBINDING_PATH@,
        decreases paths@.len() - k,
    {
        if str_equal(paths[k].as_str(), CUSTOM_KEYBINDING_PATH) {
            return None;
        }
        k = k + 1;
    }
    let mut updated: Vec<String> = Vec::new();
    let mut j: usize = 0;
    while j < paths.len()
        invariant
            j <= paths@.len(),
            updated@.len() == j,
            forall|i: int| 0 <= i < j ==> (#[trigger] updated@[i])@ == paths@[i]@,
        decreases paths@.len() - j,
    {
        updated.push(String::from_str(paths[j].as_str()));
        j = j + 1;
    }
    updated.push(String::from_str(CUSTOM_KEYBINDING_PATH));
    Some(updated)
}

} // verus!
