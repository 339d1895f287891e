//! The cross-device heuristic: deciding from a failed rename's error text
//! whether the failure means the source and target sit on different
//! volumes, so that the engine may fall back to copy-and-delete rather
//! than give up.
//!
//! The decision matches known wordings as substrings of the message,
//! ASCII-case-insensitively.

use vstd::prelude::*;
use vstd::string::StringSliceAdditionalSpecFns;

verus! {

/// ASCII lower case of one byte; other bytes are left alone.
pub open spec fn lower_byte(b: u8) -> u8 {
    if 65 <= b && b <= 90 {
        (b + 32) as u8
    } else {
        b
    }
}

/// The needle matches the haystack at position `i`, comparing bytes
/// ASCII-case-insensitively.
pub open spec fn matches_at(hay: Seq<u8>, needle: Seq<u8>, i: int) -> bool {
    &&& 0 <= i
    &&& i + needle.len() <= hay.len()
    &&& forall|j: int|
        0 <= j < needle.len() ==> lower_byte(hay[i + j]) == lower_byte(#[trigger] needle[j])
}

/// The needle occurs somewhere in the haystack, ASCII-case-insensitively.
pub open spec fn contains_ci(hay: Seq<u8>, needle: Seq<u8>) -> bool {
    exists|i: int| matches_at(hay, needle, i)
}

/// The wording that names a failed rename across volumes.
pub open spec fn needle_cross_device() -> Seq<u8> {
    seq![99, 114, 111, 115, 115, 45, 100, 101, 118, 105, 99, 101]
}

/// Another such wording.
pub open spec fn needle_different_drive() -> Seq<u8> {
    seq![
        100, 105, 102, 102, 101, 114, 101, 110, 116, 32, 100, 114, 105, 118,
        101,
    ]
}

/// Another such wording.
pub open spec fn needle_not_same_device() -> Seq<u8> {
    seq![
        110, 111, 116, 32, 115, 97, 109, 101, 32, 100, 101, 118, 105, 99,
        101,
    ]
}

/// Whether an error message reads as a cross-device rename failure.
pub open spec fn is_cross_device_text(msg: Seq<u8>) -> bool {
    ||| contains_ci(msg, needle_cross_device())
    ||| contains_ci(msg, needle_different_drive())
    ||| contains_ci(msg, needle_not_same_device())
}

/// ASCII lower case of one byte.
pub(crate) fn lower_byte_of(b: u8) -> (r: u8)
    ensures
        r == lower_byte(b),
{
    if 65 <= b && b <= 90 {
        b + 32
    } else {
        b
    }
}

/// Whether the needle occurs in the haystack,
/// ASCII-case-insensitively.
#[verifier::loop_isolation(false)]
fn contains_ci_bytes(hay: &[u8], needle: &Vec<u8>) -> (r: bool)
    ensures
        r == contains_ci(hay@, needle@),
{
    if needle.len() == 0 {
        proof {
            assert(matches_at(hay@, needle@, 0));
        }
        return true;
    }
    if needle.len() > hay.len() {
        proof {
            assert forall|i: int| !matches_at(hay@, needle@, i) by {}
        }
        return false;
    }
    let last = hay.len() - needle.len();
    let mut i: usize = 0;
    while i <= last
        invariant
            i <= last + 1,
            forall|x: int| 0 <= x < i ==> !matches_at(hay@, needle@, x),
        decreases last + 1 - i,
    {
        let mut j: usize = 0;
        let mut hit = true;
        while j < needle.len() && hit
            invariant
                j <= needle@.len(),
                hit ==> forall|y: int|
                    0 <= y < j ==> lower_byte(hay@[i + y]) == lower_byte(#[trigger] needle@[y]),
                !hit ==> !matches_at(hay@, needle@, i as int),
            decreases needle@.len() - j + (if hit { 1int } else { 0int }),
        {
            if lower_byte_of(hay[i + j]) != lower_byte_of(needle[j]) {
                hit = false;
            } else {
                j = j + 1;
            }
        }
        if hit {
            proof {
                assert(matches_at(hay@, needle@, i as int));
            }
            return true;
        }
        i = i + 1;
    }
    proof {
        assert forall|x: int| !matches_at(hay@, needle@, x) by {
            if 0 <= x && x + needle@.len() <= hay@.len() {
                assert(x < i);
            }
        }
    }
    false
}

/// The wording as bytes, for the matcher.
fn build_cross_device() -> (r: Vec<u8>)
    ensures
        r@ == needle_cross_device(),
{
    let mut v: Vec<u8> = Vec::new();
    v.push(99);
    v.push(114);
    v.push(111);
    v.push(115);
    v.push(115);
    v.push(45);
    v.push(100);
    v.push(101);
    v.push(118);
    v.push(105);
    v.push(99);
    v.push(101);
    proof {
        assert(v@ =~= needle_cross_device());
    }
    v
}

/// The wording as bytes, for the matcher.
fn build_different_drive() -> (r: Vec<u8>)
    ensures
        r@ == needle_different_drive(),
{
    let mut v: Vec<u8> = Vec::new();
    v.push(100);
    v.push(105);
    v.push(102);
    v.push(102);
    v.push(101);
    v.push(114);
    v.push(101);
    v.push(110);
    v.push(116);
    v.push(32);
    v.push(100);
    v.push(114);
    v.push(105);
    v.push(118);
    v.push(101);
    proof {
        assert(v@ =~= needle_different_drive());
    }
    v
}

/// The wording as bytes, for the matcher.
fn build_not_same_device() -> (r: Vec<u8>)
    ensures
        r@ == needle_not_same_device(),
{
    let mut v: Vec<u8> = Vec::new();
    v.push(110);
    v.push(111);
    v.push(116);
    v.push(32);
    v.push(115);
    v.push(97);
    v.push(109);
    v.push(101);
    v.push(32);
    v.push(100);
    v.push(101);
    v.push(118);
    v.push(105);
    v.push(99);
    v.push(101);
    proof {
        assert(v@ =~= needle_not_same_device());
    }
    v
}

/// Whether a failed rename's error message reads as a cross-device
/// failure, so that copy-and-delete may be tried instead.  Any other
/// failure is final.
pub fn is_cross_device_error(msg: &str) -> (r: bool)
    ensures
        r == is_cross_device_text(msg.spec_bytes()),
{
    let bytes = msg.as_bytes();
    let cd = build_cross_device();
    if contains_ci_bytes(bytes, &cd) {
        return true;
    }
    let dd = build_different_drive();
    if contains_ci_bytes(bytes, &dd) {
        return true;
    }
    let nsd = build_not_same_device();
    contains_ci_bytes(bytes, &nsd)
}

} // verus!
