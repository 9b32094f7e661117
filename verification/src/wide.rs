//! NUL-terminated UTF-16 text, as the wide-character system calls take it.

use vstd::prelude::*;

verus! {

/// The UTF-16 code units of one Unicode scalar value: one unit inside the
/// basic multilingual plane, a surrogate pair outside it.
pub open spec fn utf16_units(c: char) -> Seq<u16> {
    let v = c as u32;
    if v < 0x10000 {
        seq![v as u16]
    } else {
        let w = v - 0x10000;
        seq![(0xD800 + w / 0x400) as u16, (0xDC00 + w % 0x400) as u16]
    }
}

/// The UTF-16 encoding of a character sequence, unit by unit.
pub open spec fn utf16_encode(s: Seq<char>) -> Seq<u16>
    decreases s.len(),
{
    if s.len() == 0 {
        Seq::empty()
    } else {
        utf16_encode(s.drop_last()) + utf16_units(s.last())
    }
}

/// Text within the basic multilingual plane takes one code unit per
/// character, each the character's own code.
pub proof fn lemma_bmp_one_unit_per_char(s: Seq<char>)
    requires
        forall|i: int| 0 <= i < s.len() ==> (s[i] as u32) < 0x10000,
    ensures
        utf16_encode(s).len() == s.len(),
        forall|i: int| 0 <= i < s.len() ==> #[trigger] utf16_encode(s)[i] as u32 == s[i] as u32,
    decreases s.len(),
{
    if s.len() > 0 {
        let d = s.drop_last();
        assert forall|i: int| 0 <= i < d.len() implies (d[i] as u32) < 0x10000 by {
            assert(d[i] == s[i]);
        }
        lemma_bmp_one_unit_per_char(d);
        assert(utf16_encode(s) == utf16_encode(d) + utf16_units(s.last()));
        assert forall|i: int| 0 <= i < s.len() implies #[trigger] utf16_encode(s)[i] as u32
            == s[i] as u32 by {
            if i < d.len() {
                assert(utf16_encode(s)[i] == utf16_encode(d)[i]);
                assert(d[i] == s[i]);
            } else {
                assert(s[i] == s.last());
                assert(utf16_encode(s)[i] == utf16_units(s.last())[0]);
            }
        }
    }
}

/// Whether a code unit is the leading or the trailing half of a surrogate
/// pair.
pub open spec fn is_high_surrogate(u: u16) -> bool {
    0xD800 <= u <= 0xDBFF
}

pub open spec fn is_low_surrogate(u: u16) -> bool {
    0xDC00 <= u <= 0xDFFF
}

/// UTF-16 decoding, from the last unit back: a leading and a trailing
/// surrogate together give one character outside the basic plane, any other
/// unit gives the character of that code.
pub open spec fn utf16_decode(units: Seq<u16>) -> Seq<char>
    decreases units.len(),
{
    if units.len() == 0 {
        Seq::empty()
    } else {
        let n = units.len() as int;
        let lo = units[n - 1];
        if n >= 2 && is_low_surrogate(lo) && is_high_surrogate(units[n - 2]) {
            let hi = units[n - 2];
            utf16_decode(units.take(n - 2)).push(
                ((0x10000 + (hi - 0xD800) * 0x400 + (lo - 0xDC00)) as u32) as char,
            )
        } else {
            utf16_decode(units.drop_last()).push((lo as u32) as char)
        }
    }
}

/// Decoding undoes encoding: the units of any text decode to that text.
pub proof fn lemma_decode_encode(s: Seq<char>)
    ensures
        utf16_decode(utf16_encode(s)) == s,
    decreases s.len(),
{
    if s.len() > 0 {
        let d = s.drop_last();
        let c = s.last();
        lemma_decode_encode(d);
        let e = utf16_encode(d);
        let units = utf16_units(c);
        let all = utf16_encode(s);
        assert(all == e + units);
        let v = c as u32;
        vstd::utf8::char_is_scalar(c);
        vstd::utf8::char_u32_cast(c, v);
        if v < 0x10000 {
            assert(!is_low_surrogate(v as u16));
            assert(all.drop_last() =~= e);
            assert((v as u16) as u32 == v);
        } else {
            let w = v - 0x10000;
            let hi = (0xD800 + w / 0x400) as u16;
            let lo = (0xDC00 + w % 0x400) as u16;
            assert(all.take(all.len() - 2) =~= e);
            assert(all[all.len() - 1] == lo);
            assert(all[all.len() - 2] == hi);
            assert(0x10000 + (hi - 0xD800) * 0x400 + (lo - 0xDC00) == v);
        }
        assert(s =~= d.push(c));
    }
}

/// Encodes `s` as UTF-16 and appends the terminating NUL unit.
pub fn to_wide(s: &str) -> (wide: Vec<u16>)
    ensures
        wide@ == utf16_encode(s@).push(0u16),
        utf16_decode(wide@.drop_last()) == s@,
{
    broadcast use vstd::string::axiom_spec_iter;

    let mut out: Vec<u16> = Vec::new();
    for c in it: s.chars()
        invariant
            it.seq() == s@,
            out@ == utf16_encode(s@.take(it.index() as int)),
    {
        let v = c as u32;
        if v < 0x10000 {
            out.push(v as u16);
        } else {
            let w = v - 0x10000;
            out.push((0xD800 + w / 0x400) as u16);
            out.push((0xDC00 + w % 0x400) as u16);
        }
        assert(s@.take(it.index() + 1).drop_last() =~= s@.take(it.index() as int));
    }
    assert(s@.take(s@.len() as int) =~= s@);
    out.push(0u16);
    proof {
        lemma_decode_encode(s@);
        assert(out@.drop_last() =~= utf16_encode(s@));
    }
    out
}

} // verus!
