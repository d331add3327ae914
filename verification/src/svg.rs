//! Script and language selection for the reference-test SVG subcommand.

use vstd::prelude::*;

use crate::script::ARAB;

verus! {

/// Urdu language tag.
pub const URD: u32 = 0x55524420;

/// Balinese script tag.
pub const BALI: u32 = 0x62616C69;

/// Balinese language tag.
pub const BAN: u32 = 0x42414E20;

/// Kannada script tag.
pub const KNDA: u32 = 0x6B6E6461;

/// Kannada language tag.
pub const KAN: u32 = 0x4B414E20;

/// Thai script tag.
pub const THA: u32 = 0x54484120;

/// Tai Tham language tag.
pub const LANA: u32 = 0x6C616E61;

/// Latin script tag.
pub const LATN: u32 = 0x6C61746E;

/// English language tag.
pub const ENG: u32 = 0x454E4720;

/// Whether `p` is a prefix of `s`.
pub open spec fn has_prefix(s: Seq<char>, p: Seq<char>) -> bool {
    p.len() <= s.len() && s.subrange(0, p.len() as int) == p
}

/// The script and language tags a testcase name selects, by its prefix.
pub open spec fn spec_script_and_lang(s: Seq<char>) -> (u32, u32) {
    if has_prefix(s, ("SHARAN")@) {
        (ARAB, URD)
    } else if has_prefix(s, ("SHBALI")@) {
        (BALI, BAN)
    } else if has_prefix(s, ("SHKNDA")@) {
        (KNDA, KAN)
    } else if has_prefix(s, ("SHLANA")@) {
        (THA, LANA)
    } else {
        (LATN, ENG)
    }
}

/// Whether the string starts with the given prefix.
fn str_has_prefix(s: &str, p: &str) -> (r: bool)
    ensures
        r == has_prefix(s@, p@),
{
    let pn = p.unicode_len();
    let sn = s.unicode_len();
    if pn > sn {
        return false;
    }
    let mut i: usize = 0;
    while i < pn
        invariant
            i <= pn,
            pn == p@.len(),
            sn == s@.len(),
            pn <= sn,
            forall|j: int| 0 <= j < i ==> s@[j] == p@[j],
        decreases pn - i,
    {
        if s.get_char(i) != p.get_char(i) {
            proof {
                if has_prefix(s@, p@) {
                    assert(s@.subrange(0, p@.len() as int)[i as int] == p@[i as int]);
                }
            }
            return false;
        }
        i += 1;
    }
    proof {
        assert(s@.subrange(0, p@.len() as int) =~= p@);
    }
    true
}

/// The script and language to shape a reference testcase with, chosen by
/// the testcase name's prefix; Latin and English for anything unrecognised.
pub fn script_and_lang_from_testcase(testcase: &str) -> (r: (u32, u32))
    ensures
        r == spec_script_and_lang(testcase@),
{
    if str_has_prefix(testcase, "SHARAN") {
        (ARAB, URD)
    } else if str_has_prefix(testcase, "SHBALI") {
        (BALI, BAN)
    } else if str_has_prefix(testcase, "SHKNDA") {
        (KNDA, KAN)
    } else if str_has_prefix(testcase, "SHLANA") {
        (THA, LANA)
    } else {
        (LATN, ENG)
    }
}

} // verus!
