//! The bundled Node.js version and the rule that decides whether a Node.js
//! runtime can run the harness (v22.15.0+ or v23.8.0+; every v24+).

use vstd::prelude::*;
use crate::text::{
    chars_of, is_unicode_whitespace, push_chars, skip_leading_char, strip_leading_spec,
    trim_end_spec, trim_range, trim_spec, trim_start_spec,
};

verus! {

/// The version of the Node.js runtime that the installer bundles.
pub const NODE_VERSION: &'static str = "v24.11.1";

/// Whether `c` is an ASCII decimal digit.
pub open spec fn is_digit(c: char) -> bool {
    '0' <= c <= '9'
}

/// The value of the decimal digit `c`.
pub open spec fn digit_value(c: char) -> int {
    c as int - '0' as int
}

/// Whether every character of `s` is an ASCII decimal digit.
pub open spec fn all_digits(s: Seq<char>) -> bool {
    forall|i: int| 0 <= i < s.len() ==> is_digit(#[trigger] s[i])
}

/// The number that the decimal digits `s` spell, most significant first.
pub open spec fn decimal_value(s: Seq<char>) -> int
    decreases s.len(),
{
    if s.len() == 0 {
        0
    } else {
        decimal_value(s.drop_last()) * 10 + digit_value(s.last())
    }
}

/// The decimal digit for `d`, below ten.
pub open spec fn digit_char(d: nat) -> char {
    (d + 48) as char
}

/// The decimal digits of `n`, with no leading zeros.
pub open spec fn decimal_spec(n: nat) -> Seq<char>
    decreases n,
{
    if n < 10 {
        seq![digit_char(n)]
    } else {
        decimal_spec(n / 10).push(digit_char(n % 10))
    }
}

/// `u64::from_str`: an optional `+`, then one or more ASCII digits whose value fits in a `u64`.
pub open spec fn parse_u64_spec(s: Seq<char>) -> Option<u64> {
    let digits = if s.len() > 0 && s[0] == '+' {
        s.drop_first()
    } else {
        s
    };
    if digits.len() > 0 && all_digits(digits) && decimal_value(digits) <= u64::MAX {
        Some(decimal_value(digits) as u64)
    } else {
        None
    }
}

/// The pieces of `s` between occurrences of `sep`, the current piece starting with `cur`
/// (`str::split` with a `char`).
pub open spec fn split_from(s: Seq<char>, sep: char, cur: Seq<char>) -> Seq<Seq<char>>
    decreases s.len(),
{
    if s.len() == 0 {
        seq![cur]
    } else if s[0] == sep {
        seq![cur] + split_from(s.drop_first(), sep, seq![])
    } else {
        split_from(s.drop_first(), sep, cur.push(s[0]))
    }
}

/// The pieces of `s` between occurrences of `sep`: never empty, one more than the separators.
pub open spec fn split_spec(s: Seq<char>, sep: char) -> Seq<Seq<char>> {
    split_from(s, sep, seq![])
}

/// What `node --version` printed, read as `major.minor.patch`: the output is trimmed,
/// leading `v`s are dropped, and the first three dot-separated pieces must each parse
/// as a `u64`; any further pieces are ignored.
pub open spec fn node_version_spec(output: Seq<char>) -> Option<(u64, u64, u64)> {
    let parts = split_spec(strip_leading_spec(trim_spec(output), 'v'), '.');
    if parts.len() >= 3 && parse_u64_spec(parts[0]) is Some && parse_u64_spec(parts[1]) is Some
        && parse_u64_spec(parts[2]) is Some {
        Some(
            (
                parse_u64_spec(parts[0]).unwrap(),
                parse_u64_spec(parts[1]).unwrap(),
                parse_u64_spec(parts[2]).unwrap(),
            ),
        )
    } else {
        None
    }
}

/// The compatibility rule on a `major.minor` pair: 22.15+, 23.8+, or any major from 24 on.
pub open spec fn supported_spec(major: u64, minor: u64) -> bool {
    if major == 22 {
        minor >= 15
    } else if major == 23 {
        minor >= 8
    } else {
        major >= 24
    }
}

/// Whether `version` names a Node.js release that the harness supports.
pub open spec fn supported_version_spec(version: Seq<char>) -> bool {
    match node_version_spec(version) {
        Some((major, minor, _patch)) => supported_spec(major, minor),
        None => false,
    }
}

proof fn lemma_decimal_value_nonneg(s: Seq<char>)
    requires
        all_digits(s),
    ensures
        decimal_value(s) >= 0,
    decreases s.len(),
{
    if s.len() > 0 {
        assert(all_digits(s.drop_last()));
        lemma_decimal_value_nonneg(s.drop_last());
        assert(is_digit(s[s.len() - 1]));
    }
}

/// A longer run of digits never spells a smaller number.
proof fn lemma_decimal_value_prefix(s: Seq<char>, k: int)
    requires
        all_digits(s),
        0 <= k <= s.len(),
    ensures
        decimal_value(s.take(k)) <= decimal_value(s),
    decreases s.len() - k,
{
    if k < s.len() {
        lemma_decimal_value_prefix(s, k + 1);
        let t = s.take(k + 1);
        assert(t.drop_last() =~= s.take(k));
        assert(all_digits(s.take(k)));
        lemma_decimal_value_nonneg(s.take(k));
        assert(is_digit(s[k]));
        let v = decimal_value(s.take(k));
        assert(v <= v * 10) by (nonlinear_arith)
            requires
                v >= 0,
        ;
    } else {
        assert(s.take(k) =~= s);
    }
}

/// Parses `cs[from..to]` as `u64::from_str` does.
pub(crate) fn parse_u64_chars(cs: &[char], from: usize, to: usize) -> (res: Option<u64>)
    requires
        from <= to <= cs@.len(),
    ensures
        res == parse_u64_spec(cs@.subrange(from as int, to as int)),
{
    let ghost s = cs@.subrange(from as int, to as int);
    let mut start = from;
    if from < to && cs[from] == '+' {
        start = from + 1;
    }
    let ghost digits = cs@.subrange(start as int, to as int);
    assert(digits =~= (if s.len() > 0 && s[0] == '+' {
        s.drop_first()
    } else {
        s
    }));
    if start == to {
        return None;
    }
    let mut v: u64 = 0;
    let mut i = start;
    while i < to
        invariant
            from <= start <= i <= to <= cs@.len(),
            digits == cs@.subrange(start as int, to as int),
            s == cs@.subrange(from as int, to as int),
            digits == (if s.len() > 0 && s[0] == '+' {
                s.drop_first()
            } else {
                s
            }),
            all_digits(digits.take(i - start)),
            v as int == decimal_value(digits.take(i - start)),
        decreases to - i,
    {
        let c = cs[i];
        if !('0' <= c && c <= '9') {
            assert(digits[i - start] == c);
            return None;
        }
        let d = (c as u32 - 48) as u64;
        assert(digits.take(i + 1 - start).drop_last() =~= digits.take(i - start));
        assert(all_digits(digits.take(i + 1 - start)));
        match v.checked_mul(10) {
            Some(m) => match m.checked_add(d) {
                Some(n) => {
                    v = n;
                },
                None => {
                    proof {
                        if all_digits(digits) {
                            lemma_decimal_value_prefix(digits, i + 1 - start);
                        }
                    }
                    return None;
                },
            },
            None => {
                proof {
                    if all_digits(digits) {
                        lemma_decimal_value_prefix(digits, i + 1 - start);
                        lemma_decimal_value_nonneg(digits.take(i - start));
                    }
                }
                return None;
            },
        }
        i = i + 1;
    }
    assert(digits.take(to - start) =~= digits);
    Some(v)
}

/// The bounds of the pieces of `cs[from..to]` between occurrences of `sep`.
fn split_bounds(cs: &[char], from: usize, to: usize, sep: char) -> (res: Vec<(usize, usize)>)
    requires
        from <= to <= cs@.len(),
    ensures
        res@.len() == split_spec(cs@.subrange(from as int, to as int), sep).len(),
        forall|k: int|
            0 <= k < res@.len() ==> {
                &&& from <= (#[trigger] res@[k]).0 <= res@[k].1 <= to
                &&& cs@.subrange(res@[k].0 as int, res@[k].1 as int) == split_spec(
                    cs@.subrange(from as int, to as int),
                    sep,
                )[k]
            },
{
    let ghost whole = cs@.subrange(from as int, to as int);
    let mut bounds: Vec<(usize, usize)> = Vec::new();
    let ghost mut done: Seq<Seq<char>> = seq![];
    let mut start = from;
    let mut i = from;
    assert(cs@.subrange(start as int, i as int) =~= Seq::<char>::empty());
    assert(done + split_from(cs@.subrange(i as int, to as int), sep, cs@.subrange(
        start as int,
        i as int,
    )) =~= split_spec(whole, sep));
    while i < to
        invariant
            from <= start <= i <= to <= cs@.len(),
            whole == cs@.subrange(from as int, to as int),
            done.len() == bounds@.len(),
            forall|k: int|
                0 <= k < bounds@.len() ==> {
                    &&& from <= (#[trigger] bounds@[k]).0 <= bounds@[k].1 <= to
                    &&& cs@.subrange(bounds@[k].0 as int, bounds@[k].1 as int) == done[k]
                },
            split_spec(whole, sep) == done + split_from(
                cs@.subrange(i as int, to as int),
                sep,
                cs@.subrange(start as int, i as int),
            ),
        decreases to - i,
    {
        let ghost rest = cs@.subrange(i as int, to as int);
        assert(rest.drop_first() =~= cs@.subrange(i + 1, to as int));
        if cs[i] == sep {
            proof {
                done = done.push(cs@.subrange(start as int, i as int));
            }
            bounds.push((start, i));
            i = i + 1;
            start = i;
            assert(cs@.subrange(start as int, i as int) =~= Seq::<char>::empty());
        } else {
            assert(cs@.subrange(start as int, i as int).push(cs@[i as int]) =~= cs@.subrange(
                start as int,
                i + 1,
            ));
            i = i + 1;
        }
    }
    proof {
        done = done.push(cs@.subrange(start as int, i as int));
    }
    bounds.push((start, i));
    bounds
}

/// Reads the output of `node --version` as `(major, minor, patch)`.
pub fn parse_node_version(output: &str) -> (res: Option<(u64, u64, u64)>)
    ensures
        res == node_version_spec(output@),
{
    let cs = chars_of(output);
    let (a, b) = trim_range(cs.as_slice());
    let v = skip_leading_char(cs.as_slice(), a, b, 'v');
    let bounds = split_bounds(cs.as_slice(), v, b, '.');
    let ghost parts = split_spec(cs@.subrange(v as int, b as int), '.');
    if bounds.len() < 3 {
        return None;
    }
    let major = parse_u64_chars(cs.as_slice(), bounds[0].0, bounds[0].1);
    let minor = parse_u64_chars(cs.as_slice(), bounds[1].0, bounds[1].1);
    let patch = parse_u64_chars(cs.as_slice(), bounds[2].0, bounds[2].1);
    match (major, minor, patch) {
        (Some(x), Some(y), Some(z)) => Some((x, y, z)),
        _ => None,
    }
}

/// Whether `version` (the output of `node --version`) names a supported Node.js release.
pub fn is_supported_node_version(version: &str) -> (res: bool)
    ensures
        res == supported_version_spec(version@),
{
    match parse_node_version(version) {
        Some((major, minor, _patch)) => {
            if major == 22 {
                minor >= 15
            } else if major == 23 {
                minor >= 8
            } else {
                major >= 24
            }
        },
        None => false,
    }
}

/// `s` without its leading `v`s.
fn strip_leading_v(s: &str) -> (res: String)
    ensures
        res@ == strip_leading_spec(s@, 'v'),
{
    let cs = chars_of(s);
    let i = skip_leading_char(cs.as_slice(), 0, cs.len(), 'v');
    assert(cs@.subrange(0, cs@.len() as int) =~= cs@);
    let mut res = String::new();
    push_chars(&mut res, cs.as_slice(), i, cs.len());
    res
}

/// The bundled Node.js version without its leading `v` (such as `24.11.1`).
pub fn get_bundled_node_version() -> (res: String)
    ensures
        res@ == strip_leading_spec(NODE_VERSION@, 'v'),
{
    strip_leading_v(NODE_VERSION)
}

/// The Node.js version in use: always the bundled one.
pub fn get_active_node_version() -> (res: String)
    ensures
        res@ == strip_leading_spec(NODE_VERSION@, 'v'),
{
    get_bundled_node_version()
}

/// What running `node --version` gave back: whether it exited successfully, and its
/// standard output.
pub struct NodeVersionOutput {
    pub success: bool,
    pub stdout: Vec<u8>,
}

/// The text that `String::from_utf8_lossy` makes of `bytes`.
pub uninterp spec fn utf8_lossy_spec(bytes: Seq<u8>) -> Seq<char>;

/// Decodes `bytes` as UTF-8, each invalid sequence becoming U+FFFD
/// (`String::from_utf8_lossy`). Its result is a function of the bytes alone; no
/// clause says which text that is.
#[verifier::external_body]
fn utf8_lossy(bytes: &[u8]) -> (res: String)
    ensures
        res@ == utf8_lossy_spec(bytes@),
{
    String::from_utf8_lossy(bytes).into_owned()
}

/// Whether the bundled Node.js runtime is usable: its binary exists, `node --version`
/// ran and exited successfully, and its trimmed standard output names a supported release.
pub fn is_runtime_compatible(node_exists: bool, output: Option<&NodeVersionOutput>) -> (res:
    bool)
    ensures
        res == (node_exists && match output {
            Some(out) => out.success && supported_version_spec(
                trim_spec(utf8_lossy_spec(out.stdout@)),
            ),
            None => false,
        }),
{
    if !node_exists {
        return false;
    }
    let out = match output {
        Some(out) => out,
        None => return false,
    };
    if !out.success {
        return false;
    }
    let text = utf8_lossy(out.stdout.as_slice());
    let cs = chars_of(text.as_str());
    let (a, b) = trim_range(cs.as_slice());
    let mut trimmed = String::new();
    push_chars(&mut trimmed, cs.as_slice(), a, b);
    is_supported_node_version(trimmed.as_str())
}

/// Whether every character of `s` is whitespace.
pub open spec fn all_whitespace(s: Seq<char>) -> bool {
    forall|i: int| 0 <= i < s.len() ==> is_unicode_whitespace(#[trigger] s[i])
}

proof fn lemma_decimal_spec(n: nat)
    ensures
        decimal_spec(n).len() > 0,
        all_digits(decimal_spec(n)),
        decimal_value(decimal_spec(n)) == n,
    decreases n,
{
    let d = decimal_spec(n);
    if n < 10 {
        assert(d.drop_last() =~= Seq::<char>::empty());
        assert(is_digit(d[0]));
        assert(digit_value(digit_char(n)) == n);
        assert(d.last() == digit_char(n));
        assert(decimal_value(d) == decimal_value(d.drop_last()) * 10 + digit_value(d.last()));
        assert(decimal_value(d.drop_last()) == 0);
    } else {
        lemma_decimal_spec(n / 10);
        assert(d.drop_last() =~= decimal_spec(n / 10));
        assert(forall|i: int| 0 <= i < d.len() - 1 ==> d[i] == decimal_spec(n / 10)[i]);
        assert(is_digit(d.last()));
        assert(digit_value(digit_char(n % 10)) == n % 10);
        assert((n / 10) * 10 + n % 10 == n);
        assert(d.last() == digit_char(n % 10));
        assert(decimal_value(d) == decimal_value(d.drop_last()) * 10 + digit_value(d.last()));
        assert(decimal_value(d.drop_last()) == n / 10);
    }
}

proof fn lemma_parse_decimal(n: u64)
    ensures
        parse_u64_spec(decimal_spec(n as nat)) == Some(n),
{
    let d = decimal_spec(n as nat);
    lemma_decimal_spec(n as nat);
    assert(is_digit(d[0]));
}

proof fn lemma_trim_start_prefix(w: Seq<char>, x: Seq<char>)
    requires
        all_whitespace(w),
    ensures
        trim_start_spec(w + x) == trim_start_spec(x),
    decreases w.len(),
{
    if w.len() > 0 {
        assert((w + x)[0] == w[0]);
        assert((w + x).drop_first() =~= w.drop_first() + x);
        lemma_trim_start_prefix(w.drop_first(), x);
    } else {
        assert(w + x =~= x);
    }
}

proof fn lemma_trim_end_suffix(x: Seq<char>, w: Seq<char>)
    requires
        all_whitespace(w),
    ensures
        trim_end_spec(x + w) == trim_end_spec(x),
    decreases w.len(),
{
    if w.len() > 0 {
        assert((x + w).last() == w.last());
        assert((x + w).drop_last() =~= x + w.drop_last());
        lemma_trim_end_suffix(x, w.drop_last());
    } else {
        assert(x + w =~= x);
    }
}

/// Splitting text that holds no separator before the rest extends the current piece.
proof fn lemma_split_no_sep(x: Seq<char>, y: Seq<char>, sep: char, cur: Seq<char>)
    requires
        forall|i: int| 0 <= i < x.len() ==> #[trigger] x[i] != sep,
    ensures
        split_from(x + y, sep, cur) == split_from(y, sep, cur + x),
    decreases x.len(),
{
    if x.len() > 0 {
        assert((x + y)[0] == x[0]);
        assert((x + y).drop_first() =~= x.drop_first() + y);
        assert(cur.push(x[0]) + x.drop_first() =~= cur + x);
        lemma_split_no_sep(x.drop_first(), y, sep, cur.push(x[0]));
    } else {
        assert(x + y =~= y);
        assert(cur + x =~= cur);
    }
}

/// The text that `node --version` prints for `major.minor.patch`: optional whitespace
/// around it, an optional `v`, the three numbers in decimal separated by dots, and any
/// further dot-separated pieces (`rest`, empty or starting with a dot).
pub open spec fn version_text(
    lead: Seq<char>,
    v: bool,
    major: u64,
    minor: u64,
    patch: u64,
    rest: Seq<char>,
    trail: Seq<char>,
) -> Seq<char> {
    lead + (if v {
        seq!['v']
    } else {
        seq![]
    }) + decimal_spec(major as nat) + seq!['.'] + decimal_spec(minor as nat) + seq!['.']
        + decimal_spec(patch as nat) + rest + trail
}

/// Trimming whitespace around text that starts and ends in something else gives that text.
proof fn lemma_trim_around(lead: Seq<char>, core: Seq<char>, trail: Seq<char>)
    requires
        all_whitespace(lead),
        all_whitespace(trail),
        core.len() > 0,
        !is_unicode_whitespace(core[0]),
        !is_unicode_whitespace(core.last()),
    ensures
        trim_spec(lead + core + trail) == core,
{
    assert(lead + core + trail =~= lead + (core + trail));
    lemma_trim_start_prefix(lead, core + trail);
    assert((core + trail)[0] == core[0]);
    assert(trim_start_spec(core + trail) == core + trail);
    lemma_trim_end_suffix(core, trail);
}

/// Splitting three runs of digits joined by dots, then `rest`, on dots.
proof fn lemma_split_three(da: Seq<char>, db: Seq<char>, dc: Seq<char>, rest: Seq<char>)
    requires
        all_digits(da),
        all_digits(db),
        all_digits(dc),
        rest.len() == 0 || rest[0] == '.',
    ensures
        split_spec(da + seq!['.'] + db + seq!['.'] + dc + rest, '.').len() >= 3,
        split_spec(da + seq!['.'] + db + seq!['.'] + dc + rest, '.')[0] == da,
        split_spec(da + seq!['.'] + db + seq!['.'] + dc + rest, '.')[1] == db,
        split_spec(da + seq!['.'] + db + seq!['.'] + dc + rest, '.')[2] == dc,
{
    assert forall|i: int| 0 <= i < da.len() implies #[trigger] da[i] != '.' by {
        assert(is_digit(da[i]));
    }
    assert forall|i: int| 0 <= i < db.len() implies #[trigger] db[i] != '.' by {
        assert(is_digit(db[i]));
    }
    assert forall|i: int| 0 <= i < dc.len() implies #[trigger] dc[i] != '.' by {
        assert(is_digit(dc[i]));
    }
    let nums = da + seq!['.'] + db + seq!['.'] + dc + rest;
    let after_a = db + seq!['.'] + dc + rest;
    let after_b = dc + rest;
    let e = Seq::<char>::empty();
    assert(nums =~= da + (seq!['.'] + after_a));
    lemma_split_no_sep(da, seq!['.'] + after_a, '.', e);
    assert((seq!['.'] + after_a).drop_first() =~= after_a);
    assert(e + da =~= da);
    assert(split_from(seq!['.'] + after_a, '.', da) == seq![da] + split_from(after_a, '.', e));
    assert(after_a =~= db + (seq!['.'] + after_b));
    lemma_split_no_sep(db, seq!['.'] + after_b, '.', e);
    assert((seq!['.'] + after_b).drop_first() =~= after_b);
    assert(e + db =~= db);
    assert(split_from(seq!['.'] + after_b, '.', db) == seq![db] + split_from(after_b, '.', e));
    lemma_split_no_sep(dc, rest, '.', e);
    assert(e + dc =~= dc);
    let tail = split_from(rest, '.', dc);
    if rest.len() == 0 {
        assert(tail == seq![dc]);
    } else {
        assert(tail == seq![dc] + split_from(rest.drop_first(), '.', e));
    }
    assert(tail[0] == dc);
    let parts = split_spec(nums, '.');
    assert(parts == seq![da] + (seq![db] + tail));
}

/// Reading a printed version: whatever whitespace surrounds it, with or without a leading
/// `v`, `major.minor.patch` reads back as those three numbers, and further dot-separated
/// pieces are ignored (such as `v1.2.3.4`, which reads as `(1, 2, 3)`).
pub proof fn law_node_version_reads_back(
    lead: Seq<char>,
    v: bool,
    major: u64,
    minor: u64,
    patch: u64,
    rest: Seq<char>,
    trail: Seq<char>,
)
    requires
        all_whitespace(lead),
        all_whitespace(trail),
        rest.len() == 0 || (rest[0] == '.' && !is_unicode_whitespace(rest.last())),
    ensures
        node_version_spec(version_text(lead, v, major, minor, patch, rest, trail)) == Some(
            (major, minor, patch),
        ),
{
    let da = decimal_spec(major as nat);
    let db = decimal_spec(minor as nat);
    let dc = decimal_spec(patch as nat);
    lemma_decimal_spec(major as nat);
    lemma_decimal_spec(minor as nat);
    lemma_decimal_spec(patch as nat);
    let nums = da + seq!['.'] + db + seq!['.'] + dc + rest;
    let pre: Seq<char> = if v {
        seq!['v']
    } else {
        seq![]
    };
    let core = pre + nums;
    assert(version_text(lead, v, major, minor, patch, rest, trail) =~= lead + core + trail);
    assert(nums[0] == da[0]);
    assert(is_digit(da[0]));
    assert(!is_unicode_whitespace(core[0]));
    if rest.len() == 0 {
        assert(core.last() == dc.last());
        assert(is_digit(dc[dc.len() - 1]));
    } else {
        assert(core.last() == rest.last());
    }
    lemma_trim_around(lead, core, trail);
    if v {
        assert(core[0] == 'v');
        assert(core.drop_first() =~= nums);
    } else {
        assert(core =~= nums);
    }
    assert(nums[0] != 'v');
    assert(strip_leading_spec(nums, 'v') == nums);
    assert(strip_leading_spec(core, 'v') == nums);
    lemma_split_three(da, db, dc, rest);
    lemma_parse_decimal(major);
    lemma_parse_decimal(minor);
    lemma_parse_decimal(patch);
}

/// Every release from v24 on passes the compatibility rule, whatever its minor and patch,
/// however `node --version` surrounds it with whitespace or further pieces.
pub proof fn law_every_major_from_24_supported(
    lead: Seq<char>,
    v: bool,
    major: u64,
    minor: u64,
    patch: u64,
    rest: Seq<char>,
    trail: Seq<char>,
)
    requires
        all_whitespace(lead),
        all_whitespace(trail),
        rest.len() == 0 || (rest[0] == '.' && !is_unicode_whitespace(rest.last())),
        major >= 24,
    ensures
        supported_version_spec(version_text(lead, v, major, minor, patch, rest, trail)),
{
    law_node_version_reads_back(lead, v, major, minor, patch, rest, trail);
}

/// Within one major line, a later minor release is supported whenever an earlier one is.
pub proof fn law_later_minor_stays_supported(
    lead: Seq<char>,
    v: bool,
    major: u64,
    minor: u64,
    later_minor: u64,
    patch: u64,
    later_patch: u64,
    rest: Seq<char>,
    trail: Seq<char>,
)
    requires
        all_whitespace(lead),
        all_whitespace(trail),
        rest.len() == 0 || (rest[0] == '.' && !is_unicode_whitespace(rest.last())),
        minor <= later_minor,
        supported_version_spec(version_text(lead, v, major, minor, patch, rest, trail)),
    ensures
        supported_version_spec(
            version_text(lead, v, major, later_minor, later_patch, rest, trail),
        ),
{
    law_node_version_reads_back(lead, v, major, minor, patch, rest, trail);
    law_node_version_reads_back(lead, v, major, later_minor, later_patch, rest, trail);
}

/// The two thresholds below v24: a v22 release is supported exactly from 22.15, a v23
/// release exactly from 23.8, and no release before v22 is.
pub proof fn law_thresholds_below_24(
    lead: Seq<char>,
    v: bool,
    major: u64,
    minor: u64,
    patch: u64,
    rest: Seq<char>,
    trail: Seq<char>,
)
    requires
        all_whitespace(lead),
        all_whitespace(trail),
        rest.len() == 0 || (rest[0] == '.' && !is_unicode_whitespace(rest.last())),
        major < 24,
    ensures
        supported_version_spec(version_text(lead, v, major, minor, patch, rest, trail)) <==> (
        major == 22 && minor >= 15 || major == 23 && minor >= 8),
{
    law_node_version_reads_back(lead, v, major, minor, patch, rest, trail);
}

} // verus!
