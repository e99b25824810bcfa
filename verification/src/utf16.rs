//! UTF-16 encoding, as `CreateProcessW` takes its command line and environment.

use vstd::prelude::*;

verus! {

/// The UTF-16 code units of one character: one unit below U+10000, else a surrogate pair.
pub open spec fn utf16_of_char(c: char) -> Seq<u16> {
    let u = c as u32;
    if u < 0x10000 {
        seq![u as u16]
    } else {
        let v = u - 0x10000;
        seq![(0xD800 + v / 0x400) as u16, (0xDC00 + v % 0x400) as u16]
    }
}

/// The UTF-16 code units of `s` (`str::encode_utf16`).
pub open spec fn utf16_spec(s: Seq<char>) -> Seq<u16>
    decreases s.len(),
{
    if s.len() == 0 {
        seq![]
    } else {
        utf16_spec(s.drop_last()) + utf16_of_char(s.last())
    }
}

/// Appends the UTF-16 code units of `cs` to `out`.
pub(crate) fn push_utf16(out: &mut Vec<u16>, cs: &[char])
    ensures
        final(out)@ == old(out)@ + utf16_spec(cs@),
{
    let ghost start = out@;
    let mut i: usize = 0;
    while i < cs.len()
        invariant
            i <= cs@.len(),
            out@ == start + utf16_spec(cs@.take(i as int)),
        decreases cs@.len() - i,
    {
        let c = cs[i];
        let u = c as u32;
        if u < 0x10000 {
            out.push(u as u16);
        } else {
            let v = u - 0x10000;
            out.push((0xD800 + v / 0x400) as u16);
            out.push((0xDC00 + v % 0x400) as u16);
        }
        assert(cs@.take(i + 1).drop_last() =~= cs@.take(i as int));
        i = i + 1;
        assert(out@ =~= start + utf16_spec(cs@.take(i as int)));
    }
    assert(cs@.take(cs@.len() as int) =~= cs@);
}

/// Whether `u` is a leading (high) surrogate.
pub open spec fn is_high_surrogate(u: u16) -> bool {
    0xD800 <= u <= 0xDBFF
}

/// Whether `u` is a trailing (low) surrogate.
pub open spec fn is_low_surrogate(u: u16) -> bool {
    0xDC00 <= u <= 0xDFFF
}

/// Reads UTF-16 code units back as characters: a unit outside the surrogate range is the
/// character with that number; a high surrogate `h` followed by a low surrogate `l` is the
/// character `0x10000 + (h - 0xD800) * 0x400 + (l - 0xDC00)`; a lone surrogate is an error.
pub open spec fn utf16_decode(units: Seq<u16>) -> Option<Seq<char>>
    decreases units.len(),
{
    if units.len() == 0 {
        Some(seq![])
    } else if is_high_surrogate(units[0]) {
        if units.len() >= 2 && is_low_surrogate(units[1]) {
            let c = (0x10000 + (units[0] - 0xD800) * 0x400 + (units[1] - 0xDC00)) as char;
            match utf16_decode(units.skip(2)) {
                Some(rest) => Some(seq![c] + rest),
                None => None,
            }
        } else {
            None
        }
    } else if is_low_surrogate(units[0]) {
        None
    } else {
        match utf16_decode(units.drop_first()) {
            Some(rest) => Some(seq![units[0] as char] + rest),
            None => None,
        }
    }
}

/// The encoding of two joined texts is the two encodings joined.
proof fn lemma_utf16_concat(a: Seq<char>, b: Seq<char>)
    ensures
        utf16_spec(a + b) == utf16_spec(a) + utf16_spec(b),
    decreases b.len(),
{
    if b.len() == 0 {
        assert(a + b =~= a);
        assert(utf16_spec(a) + utf16_spec(b) =~= utf16_spec(a));
    } else {
        assert((a + b).drop_last() =~= a + b.drop_last());
        assert((a + b).last() == b.last());
        lemma_utf16_concat(a, b.drop_last());
        assert(utf16_spec(a + b) =~= utf16_spec(a) + utf16_spec(b));
    }
}

/// The units of one character read back as that character, whatever follows them.
proof fn lemma_decode_char(c: char, rest: Seq<u16>)
    ensures
        utf16_decode(utf16_of_char(c) + rest) == match utf16_decode(rest) {
            Some(r) => Some(seq![c] + r),
            None => None::<Seq<char>>,
        },
{
    let u = c as u32;
    let t = utf16_of_char(c) + rest;
    if u < 0x10000 {
        assert(!(0xD800 <= u <= 0xDFFF));
        assert(t[0] == u as u16);
        assert(t.drop_first() =~= rest);
        assert((u as u16) as u32 == u);
        assert(((u as u16) as char) == c);
    } else {
        let v = u - 0x10000;
        assert(u <= 0x10FFFF);
        let h = (0xD800 + v / 0x400) as u16;
        let l = (0xDC00 + v % 0x400) as u16;
        assert(t[0] == h && t[1] == l);
        assert(is_high_surrogate(h));
        assert(is_low_surrogate(l));
        assert(t.skip(2) =~= rest);
        assert(0x10000 + (h - 0xD800) * 0x400 + (l - 0xDC00) == u);
        assert(((0x10000 + (h - 0xD800) * 0x400 + (l - 0xDC00)) as char) == c);
    }
}

/// UTF-16 reads back: decoding the units of any text gives that text again, so no
/// character is lost or changed on the way to `CreateProcessW`.
pub proof fn law_utf16_roundtrip(s: Seq<char>)
    ensures
        utf16_decode(utf16_spec(s)) == Some(s),
    decreases s.len(),
{
    if s.len() > 0 {
        let r = s.drop_first();
        assert(s =~= seq![s[0]] + r);
        lemma_utf16_concat(seq![s[0]], r);
        let one = seq![s[0]];
        assert(one.drop_last() =~= Seq::<char>::empty());
        assert(one.last() == s[0]);
        assert(utf16_spec(one.drop_last()) == Seq::<u16>::empty());
        assert(utf16_spec(one) == utf16_spec(one.drop_last()) + utf16_of_char(one.last()));
        assert(utf16_spec(one) =~= utf16_of_char(s[0]));
        law_utf16_roundtrip(r);
        lemma_decode_char(s[0], utf16_spec(r));
        assert(seq![s[0]] + r =~= s);
    }
}

/// A character below U+10000 is the one code unit with its own number.
pub proof fn law_utf16_bmp_char(c: char)
    requires
        (c as u32) < 0x10000,
    ensures
        utf16_of_char(c) == seq![(c as u32) as u16],
        ((c as u32) as u16) as u32 == c as u32,
{
}

/// A text of characters below U+10000 is encoded unit for unit: as many units as
/// characters, each with its character's number.
pub proof fn law_utf16_bmp_text(s: Seq<char>)
    requires
        forall|i: int| 0 <= i < s.len() ==> (#[trigger] s[i] as u32) < 0x10000,
    ensures
        utf16_spec(s).len() == s.len(),
        forall|i: int| 0 <= i < s.len() ==> #[trigger] utf16_spec(s)[i] as u32 == s[i] as u32,
    decreases s.len(),
{
    if s.len() > 0 {
        let p = s.drop_last();
        assert(forall|i: int| 0 <= i < p.len() ==> p[i] == s[i]);
        law_utf16_bmp_text(p);
        let t = utf16_spec(s);
        assert(t == utf16_spec(p) + utf16_of_char(s.last()));
        assert((s[s.len() - 1] as u32) < 0x10000);
        assert forall|i: int| 0 <= i < s.len() implies #[trigger] t[i] as u32 == s[i] as u32 by {
            if i < s.len() - 1 {
                assert(t[i] == utf16_spec(p)[i]);
            }
        }
    }
}

} // verus!
