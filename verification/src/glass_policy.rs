//! Material selection for the glass capsule. Native blur is the first
//! choice; a solid capsule stands in where blur is not allowed; the clear,
//! transparent material is an explicit diagnostic and never a fallback.

use vstd::prelude::*;
use crate::text::{
    chars_equal, chars_of, debug_string, debug_text, lower_seq, lowercase_chars, trim, trim_chars,
};

verus! {

#[derive(Clone, Copy, Debug, PartialEq, Eq, Structural)]
pub enum Backend {
    Native,
    Solid,
    Transparent,
}

pub open spec fn backend_named(name: Seq<char>) -> Option<Backend> {
    if name == seq!['n', 'a', 't', 'i', 'v', 'e'] {
        Some(Backend::Native)
    } else if name == seq!['s', 'o', 'l', 'i', 'd'] {
        Some(Backend::Solid)
    } else if name == seq!['t', 'r', 'a', 'n', 's', 'p', 'a', 'r', 'e', 'n', 't'] {
        Some(Backend::Transparent)
    } else {
        None
    }
}

pub open spec fn unknown_backend_message(value: Seq<char>) -> Seq<char> {
    "unknown glass backend "@ + debug_text(value) + "; expected native, solid or transparent"@
}

/// The resolved material: without permission for native blur, everything but
/// the explicit transparent diagnostic becomes solid.
pub open spec fn resolved_backend(requested: Backend, native_allowed: bool) -> Backend {
    if !native_allowed && requested != Backend::Transparent { Backend::Solid } else { requested }
}

impl Backend {
    /// Parses a backend name, ignoring surrounding white space and ASCII case.
    pub fn parse(value: &str) -> (r: Result<Self, String>)
        ensures
            match r {
                Ok(b) => backend_named(lower_seq(trim(value@))) == Some(b),
                Err(message) => backend_named(lower_seq(trim(value@))) is None
                    && message@ == unknown_backend_message(value@),
            },
    {
        let all = chars_of(value);
        let trimmed = trim_chars(&all);
        let name = lowercase_chars(&trimmed);
        let native = chars_of("native");
        let solid = chars_of("solid");
        let transparent = chars_of("transparent");
        proof {
            reveal_strlit("native");
            reveal_strlit("solid");
            reveal_strlit("transparent");
            assert(native@ =~= seq!['n', 'a', 't', 'i', 'v', 'e']);
            assert(solid@ =~= seq!['s', 'o', 'l', 'i', 'd']);
            assert(transparent@ =~= seq!['t', 'r', 'a', 'n', 's', 'p', 'a', 'r', 'e', 'n', 't']);
        }
        if chars_equal(&name, &native) {
            Ok(Backend::Native)
        } else if chars_equal(&name, &solid) {
            Ok(Backend::Solid)
        } else if chars_equal(&name, &transparent) {
            Ok(Backend::Transparent)
        } else {
            let mut message = String::from_str("unknown glass backend ");
            let quoted = debug_string(value);
            message.append(quoted.as_str());
            message.append("; expected native, solid or transparent");
            Err(message)
        }
    }

    /// Falls back to solid when native blur is not allowed; the transparent
    /// diagnostic is kept as requested and never chosen as a fallback.
    pub fn resolve(self, native_allowed: bool) -> (r: Self)
        ensures
            r == resolved_backend(self, native_allowed),
    {
        if !native_allowed && self != Backend::Transparent {
            Backend::Solid
        } else {
            self
        }
    }
}

/// The automatic fallback never selects the clear material: resolving a
/// native or solid request never gives transparent.
pub proof fn lemma_fallback_is_never_transparent(requested: Backend, native_allowed: bool)
    requires
        requested != Backend::Transparent,
    ensures
        resolved_backend(requested, native_allowed) != Backend::Transparent,
        !native_allowed ==> resolved_backend(requested, native_allowed) == Backend::Solid,
{
}

/// Resolution only ever falls back: where native blur is allowed every
/// request is kept, and an explicit transparent request is kept whether or
/// not blur is allowed.
pub proof fn lemma_requests_are_kept_unless_falling_back(requested: Backend, native_allowed: bool)
    ensures
        native_allowed ==> resolved_backend(requested, native_allowed) == requested,
        resolved_backend(Backend::Transparent, native_allowed) == Backend::Transparent,
        resolved_backend(requested, native_allowed) == requested
            || resolved_backend(requested, native_allowed) == Backend::Solid,
{
}

pub open spec fn frame_overflow_message() -> Seq<char> {
    "glass dimensions overflow"@
}

pub open spec fn frame_mismatch_message() -> Seq<char> {
    "glass frame dimensions do not match its pixels"@
}

/// The checks made on frames before content protection: `width * height * 4`
/// must fit in `usize`; the size must be non-zero and every frame must hold
/// exactly that many BGRA bytes. Ok carries the byte length of a frame.
pub open spec fn frame_check(frame_lens: Seq<nat>, width: u32, height: u32) -> Result<nat, Seq<char>> {
    let len = width as nat * height as nat * 4;
    if width as nat * height as nat > usize::MAX || len > usize::MAX {
        Err(frame_overflow_message())
    } else if width == 0 || height == 0 || exists|i: int| 0 <= i < frame_lens.len() && #[trigger] frame_lens[i] != len {
        Err(frame_mismatch_message())
    } else {
        Ok(len)
    }
}

/// Validates BGRA frames for content protection; the error texts are those
/// `protect_content` reports.
pub fn check_frames(frames: &[Vec<u8>], width: u32, height: u32) -> (r: Result<usize, &'static str>)
    ensures
        match r {
            Ok(len) => frame_check(frames@.map_values(|f: Vec<u8>| f@.len()), width, height) == Ok::<nat, Seq<char>>(len as nat),
            Err(message) => frame_check(frames@.map_values(|f: Vec<u8>| f@.len()), width, height) == Err::<nat, Seq<char>>(message@),
        },
{
    let ghost lens = frames@.map_values(|f: Vec<u8>| f@.len());
    let w = width as usize;
    let h = height as usize;
    let pixels = match w.checked_mul(h) {
        Some(p) => p,
        None => {
            return Err("glass dimensions overflow");
        },
    };
    let len = match pixels.checked_mul(4) {
        Some(l) => l,
        None => {
            assert(width as nat * height as nat * 4 > usize::MAX) by (nonlinear_arith)
                requires
                    pixels as nat == width as nat * height as nat,
                    pixels as nat * 4 > usize::MAX;
            return Err("glass dimensions overflow");
        },
    };
    if width == 0 || height == 0 {
        return Err("glass frame dimensions do not match its pixels");
    }
    let mut i: usize = 0;
    while i < frames.len()
        invariant
            i <= frames@.len(),
            lens == frames@.map_values(|f: Vec<u8>| f@.len()),
            len as nat == width as nat * height as nat * 4,
            forall|j: int| 0 <= j < i ==> lens[j] == len as nat,
        decreases frames@.len() - i,
    {
        if frames[i].len() != len {
            assert(lens[i as int] != len as nat);
            return Err("glass frame dimensions do not match its pixels");
        }
        i = i + 1;
    }
    Ok(len)
}

/// Frames pass the check exactly when every one of them holds four bytes for
/// each of the `width * height` pixels, the size is not empty, and that byte
/// count fits in memory; a passing check reports that byte count.
pub proof fn lemma_frames_pass_exactly_when_each_holds_every_pixel(frame_lens: Seq<nat>, width: u32, height: u32)
    ensures
        frame_check(frame_lens, width, height) is Ok <==> {
            &&& width > 0 && height > 0
            &&& width as nat * height as nat * 4 <= usize::MAX
            &&& forall|i: int| 0 <= i < frame_lens.len() ==> #[trigger] frame_lens[i] == width as nat * height as nat * 4
        },
        frame_check(frame_lens, width, height) matches Ok(len) ==> len == width as nat * height as nat * 4,
{
    assert(width as nat * height as nat <= width as nat * height as nat * 4) by (nonlinear_arith);
}

} // verus!
