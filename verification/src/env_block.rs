//! The environment block that `CreateProcessW` takes: the current variables with the
//! launcher's own set over them. Windows compares variable names without regard to
//! ASCII case, so setting `PATH` replaces an existing `Path` instead of adding a second one.

use vstd::prelude::*;
use crate::text::chars_of;
use crate::utf16::{push_utf16, utf16_spec};

verus! {

/// One environment variable, its name and value in UTF-16.
pub struct EnvVar {
    pub key: Vec<u16>,
    pub value: Vec<u16>,
}

impl View for EnvVar {
    type V = (Seq<u16>, Seq<u16>);

    open spec fn view(&self) -> (Seq<u16>, Seq<u16>) {
        (self.key@, self.value@)
    }
}

/// The names and values of a list of variables.
pub open spec fn env_view(vars: Seq<EnvVar>) -> Seq<(Seq<u16>, Seq<u16>)> {
    vars.map_values(|e: EnvVar| e@)
}

/// A UTF-16 code unit with ASCII capitals made small.
pub open spec fn ascii_fold(u: u16) -> u16 {
    if 0x41 <= u <= 0x5A {
        (u + 0x20) as u16
    } else {
        u
    }
}

/// Whether two variable names are equal but for ASCII case (`OsStr::eq_ignore_ascii_case`).
pub open spec fn keys_match(a: Seq<u16>, b: Seq<u16>) -> bool {
    a.len() == b.len() && forall|i: int| 0 <= i < a.len() ==> ascii_fold(a[i]) == ascii_fold(b[i])
}

/// `vars` with `key` set to `value`: the first variable whose name matches `key` gets the
/// new value and keeps its own spelling of the name; if none matches, the variable is
/// added at the end.
pub open spec fn set_env_spec(vars: Seq<(Seq<u16>, Seq<u16>)>, key: Seq<u16>, value: Seq<u16>)
    -> Seq<(Seq<u16>, Seq<u16>)>
    decreases vars.len(),
{
    if vars.len() == 0 {
        seq![(key, value)]
    } else if keys_match(vars[0].0, key) {
        vars.update(0, (vars[0].0, value))
    } else {
        seq![vars[0]] + set_env_spec(vars.drop_first(), key, value)
    }
}

/// `vars` with each of `extra` set over it, in order.
pub open spec fn merge_env_spec(
    vars: Seq<(Seq<u16>, Seq<u16>)>,
    extra: Seq<(Seq<u16>, Seq<u16>)>,
) -> Seq<(Seq<u16>, Seq<u16>)>
    decreases extra.len(),
{
    if extra.len() == 0 {
        vars
    } else {
        merge_env_spec(set_env_spec(vars, extra[0].0, extra[0].1), extra.drop_first())
    }
}

/// The UTF-16 names and values of a list of string pairs.
pub open spec fn extra_view(extra: Seq<(String, String)>) -> Seq<(Seq<u16>, Seq<u16>)> {
    extra.map_values(|p: (String, String)| (utf16_spec(p.0@), utf16_spec(p.1@)))
}

/// The value of the first variable whose name matches `key`, if any.
pub open spec fn lookup_env(vars: Seq<(Seq<u16>, Seq<u16>)>, key: Seq<u16>) -> Option<Seq<u16>>
    decreases vars.len(),
{
    if vars.len() == 0 {
        None
    } else if keys_match(vars[0].0, key) {
        Some(vars[0].1)
    } else {
        lookup_env(vars.drop_first(), key)
    }
}

/// The entries of an environment block: `name=value` and a NUL for each variable.
pub open spec fn env_entries_spec(vars: Seq<(Seq<u16>, Seq<u16>)>) -> Seq<u16>
    decreases vars.len(),
{
    if vars.len() == 0 {
        seq![]
    } else {
        env_entries_spec(vars.drop_last()) + vars.last().0 + seq![0x3Du16] + vars.last().1 + seq![
            0u16,
        ]
    }
}

/// An environment block: its entries and one more NUL.
pub open spec fn env_block_spec(vars: Seq<(Seq<u16>, Seq<u16>)>) -> Seq<u16> {
    env_entries_spec(vars) + seq![0u16]
}

/// Whether two variable names are equal but for ASCII case.
pub fn env_keys_match(a: &[u16], b: &[u16]) -> (res: bool)
    ensures
        res == keys_match(a@, b@),
{
    if a.len() != b.len() {
        return false;
    }
    let mut i: usize = 0;
    while i < a.len()
        invariant
            a@.len() == b@.len(),
            i <= a@.len(),
            forall|j: int| 0 <= j < i ==> ascii_fold(a@[j]) == ascii_fold(b@[j]),
        decreases a@.len() - i,
    {
        let x = a[i];
        let y = b[i];
        let fx = if 0x41 <= x && x <= 0x5A {
            x + 0x20
        } else {
            x
        };
        let fy = if 0x41 <= y && y <= 0x5A {
            y + 0x20
        } else {
            y
        };
        if fx != fy {
            return false;
        }
        i = i + 1;
    }
    true
}

proof fn lemma_set_env_at(vars: Seq<(Seq<u16>, Seq<u16>)>, key: Seq<u16>, value: Seq<u16>, i: int)
    requires
        0 <= i <= vars.len(),
        forall|k: int| 0 <= k < i ==> !keys_match(#[trigger] vars[k].0, key),
        i < vars.len() ==> keys_match(vars[i].0, key),
    ensures
        set_env_spec(vars, key, value) == if i < vars.len() {
            vars.update(i, (vars[i].0, value))
        } else {
            vars.push((key, value))
        },
    decreases vars.len(),
{
    if vars.len() == 0 {
        assert(seq![(key, value)] =~= vars.push((key, value)));
    } else if i == 0 {
    } else {
        let rest = vars.drop_first();
        assert forall|k: int| 0 <= k < i - 1 implies !keys_match(#[trigger] rest[k].0, key) by {
            assert(rest[k] == vars[k + 1]);
        }
        lemma_set_env_at(rest, key, value, i - 1);
        if i < vars.len() {
            assert(seq![vars[0]] + rest.update(i - 1, (rest[i - 1].0, value)) =~= vars.update(
                i,
                (vars[i].0, value),
            ));
        } else {
            assert(seq![vars[0]] + rest.push((key, value)) =~= vars.push((key, value)));
        }
    }
}

/// Sets `key` to `value` in `vars`: the first variable whose name matches `key` but for
/// ASCII case takes the value and keeps its name, else the variable is added at the end.
pub fn set_env_var(vars: &mut Vec<EnvVar>, key: Vec<u16>, value: Vec<u16>)
    ensures
        env_view(final(vars)@) == set_env_spec(env_view(old(vars)@), key@, value@),
{
    let ghost before = env_view(vars@);
    let mut i: usize = 0;
    while i < vars.len()
        invariant
            i <= vars@.len(),
            before == env_view(vars@),
            before == env_view(old(vars)@),
            forall|k: int| 0 <= k < i ==> !keys_match(#[trigger] before[k].0, key@),
        decreases vars@.len() - i,
    {
        if env_keys_match(vars[i].key.as_slice(), key.as_slice()) {
            proof {
                lemma_set_env_at(before, key@, value@, i as int);
            }
            vars[i].value = value;
            assert(env_view(vars@) =~= before.update(i as int, (before[i as int].0, value@)));
            return;
        }
        i = i + 1;
    }
    proof {
        lemma_set_env_at(before, key@, value@, i as int);
    }
    vars.push(EnvVar { key, value });
    assert(env_view(vars@) =~= before.push((key@, value@)));
}

/// The UTF-16 code units of `s`.
pub fn utf16_of(s: &str) -> (res: Vec<u16>)
    ensures
        res@ == utf16_spec(s@),
{
    let cs = chars_of(s);
    let mut res: Vec<u16> = Vec::new();
    push_utf16(&mut res, cs.as_slice());
    res
}

/// `vars` with each of `extra` set over it, in order.
pub fn merge_env(vars: Vec<EnvVar>, extra: &[(String, String)]) -> (res: Vec<EnvVar>)
    ensures
        env_view(res@) == merge_env_spec(env_view(vars@), extra_view(extra@)),
{
    let mut cur = vars;
    let ghost all = extra_view(extra@);
    let mut i: usize = 0;
    assert(all.skip(0) =~= all);
    while i < extra.len()
        invariant
            i <= extra@.len(),
            all == extra_view(extra@),
            merge_env_spec(env_view(vars@), all) == merge_env_spec(
                env_view(cur@),
                all.skip(i as int),
            ),
        decreases extra@.len() - i,
    {
        let key = utf16_of(extra[i].0.as_str());
        let value = utf16_of(extra[i].1.as_str());
        assert(all.skip(i as int).drop_first() =~= all.skip(i + 1));
        set_env_var(&mut cur, key, value);
        i = i + 1;
    }
    assert(all.skip(i as int) =~= Seq::<(Seq<u16>, Seq<u16>)>::empty());
    cur
}

/// The environment block for a child process: `vars` (the current environment) with
/// `extra` set over it, each variable written `name=value` and ended by a NUL, and one
/// more NUL at the end.
pub fn build_env_block(vars: Vec<EnvVar>, extra: &[(String, String)]) -> (res: Vec<u16>)
    ensures
        res@ == env_block_spec(merge_env_spec(env_view(vars@), extra_view(extra@))),
{
    let merged = merge_env(vars, extra);
    let ghost m = env_view(merged@);
    let mut block: Vec<u16> = Vec::new();
    let mut i: usize = 0;
    while i < merged.len()
        invariant
            i <= merged@.len(),
            m == env_view(merged@),
            block@ == env_entries_spec(m.take(i as int)),
        decreases merged@.len() - i,
    {
        let ghost before = block@;
        let key = &merged[i].key;
        let value = &merged[i].value;
        let mut k: usize = 0;
        while k < key.len()
            invariant
                k <= key@.len(),
                block@ == before + key@.take(k as int),
            decreases key@.len() - k,
        {
            block.push(key[k]);
            k = k + 1;
            assert(block@ =~= before + key@.take(k as int));
        }
        block.push(0x3D);
        let ghost mid = block@;
        let mut k: usize = 0;
        while k < value.len()
            invariant
                k <= value@.len(),
                block@ == mid + value@.take(k as int),
            decreases value@.len() - k,
        {
            block.push(value[k]);
            k = k + 1;
            assert(block@ =~= mid + value@.take(k as int));
        }
        block.push(0);
        proof {
            assert(m.take(i + 1).drop_last() =~= m.take(i as int));
            assert(key@.take(key@.len() as int) =~= key@);
            assert(value@.take(value@.len() as int) =~= value@);
            assert(block@ =~= env_entries_spec(m.take(i + 1)));
        }
        i = i + 1;
    }
    block.push(0);
    assert(m.take(i as int) =~= m);
    block
}

/// Whether no two variables in `vars` have names that match.
pub open spec fn distinct_keys(vars: Seq<(Seq<u16>, Seq<u16>)>) -> bool {
    forall|i: int, j: int|
        0 <= i < j < vars.len() ==> !keys_match(#[trigger] vars[i].0, #[trigger] vars[j].0)
}

proof fn lemma_keys_match_symmetric(a: Seq<u16>, b: Seq<u16>)
    ensures
        keys_match(a, b) == keys_match(b, a),
{
}

proof fn lemma_keys_match_transitive(a: Seq<u16>, b: Seq<u16>, c: Seq<u16>)
    requires
        keys_match(a, b),
        keys_match(b, c),
    ensures
        keys_match(a, c),
{
    assert forall|i: int| 0 <= i < a.len() implies ascii_fold(a[i]) == ascii_fold(c[i]) by {
        assert(ascii_fold(a[i]) == ascii_fold(b[i]));
        assert(ascii_fold(b[i]) == ascii_fold(c[i]));
    }
}

/// Setting a variable and then reading it gives back the value set.
pub proof fn law_set_env_then_lookup(
    vars: Seq<(Seq<u16>, Seq<u16>)>,
    key: Seq<u16>,
    value: Seq<u16>,
)
    ensures
        lookup_env(set_env_spec(vars, key, value), key) == Some(value),
    decreases vars.len(),
{
    let res = set_env_spec(vars, key, value);
    if vars.len() == 0 {
        assert(res[0] == (key, value));
        assert(keys_match(key, key));
    } else if keys_match(vars[0].0, key) {
        assert(res[0] == (vars[0].0, value));
    } else {
        law_set_env_then_lookup(vars.drop_first(), key, value);
        assert(res[0] == vars[0]);
        assert(res.drop_first() =~= set_env_spec(vars.drop_first(), key, value));
    }
}

/// Setting a variable leaves every variable whose name does not match it as it was.
pub proof fn law_set_env_keeps_others(
    vars: Seq<(Seq<u16>, Seq<u16>)>,
    key: Seq<u16>,
    value: Seq<u16>,
    other: Seq<u16>,
)
    requires
        !keys_match(other, key),
    ensures
        lookup_env(set_env_spec(vars, key, value), other) == lookup_env(vars, other),
    decreases vars.len(),
{
    let res = set_env_spec(vars, key, value);
    if vars.len() == 0 {
        assert(res[0] == (key, value));
        lemma_keys_match_symmetric(key, other);
        assert(res.drop_first() =~= Seq::<(Seq<u16>, Seq<u16>)>::empty());
        assert(lookup_env(res, other) == lookup_env(res.drop_first(), other));
    } else if keys_match(vars[0].0, key) {
        assert(res[0] == (vars[0].0, value));
        if keys_match(vars[0].0, other) {
            lemma_keys_match_symmetric(vars[0].0, other);
            lemma_keys_match_transitive(other, vars[0].0, key);
        }
        assert(!keys_match(res[0].0, other));
        assert(res.drop_first() =~= vars.drop_first());
        assert(lookup_env(res, other) == lookup_env(res.drop_first(), other));
        assert(lookup_env(vars, other) == lookup_env(vars.drop_first(), other));
    } else {
        law_set_env_keeps_others(vars.drop_first(), key, value, other);
        assert(res[0] == vars[0]);
        assert(res.drop_first() =~= set_env_spec(vars.drop_first(), key, value));
    }
}

/// Setting a variable never gives two variables with matching names: a name that is
/// already there is reused, not added again.
pub proof fn law_set_env_keeps_keys_distinct(
    vars: Seq<(Seq<u16>, Seq<u16>)>,
    key: Seq<u16>,
    value: Seq<u16>,
)
    requires
        distinct_keys(vars),
    ensures
        distinct_keys(set_env_spec(vars, key, value)),
    decreases vars.len(),
{
    let res = set_env_spec(vars, key, value);
    if vars.len() == 0 {
    } else if keys_match(vars[0].0, key) {
        assert forall|i: int, j: int| 0 <= i < j < res.len() implies !keys_match(
            #[trigger] res[i].0,
            #[trigger] res[j].0,
        ) by {
            assert(res[i].0 == vars[i].0);
            assert(res[j].0 == vars[j].0);
        }
    } else {
        let rest = vars.drop_first();
        assert forall|i: int, j: int| 0 <= i < j < rest.len() implies !keys_match(
            #[trigger] rest[i].0,
            #[trigger] rest[j].0,
        ) by {
            assert(rest[i] == vars[i + 1]);
            assert(rest[j] == vars[j + 1]);
        }
        law_set_env_keeps_keys_distinct(rest, key, value);
        let tail = set_env_spec(rest, key, value);
        assert(res == seq![vars[0]] + tail);
        lemma_set_env_names(rest, key, value);
        assert forall|i: int, j: int| 0 <= i < j < res.len() implies !keys_match(
            #[trigger] res[i].0,
            #[trigger] res[j].0,
        ) by {
            if i == 0 {
                assert(res[j] == tail[j - 1]);
                let n = tail[j - 1].0;
                if n == key {
                    assert(!keys_match(vars[0].0, key));
                } else {
                    let k = choose|k: int| 0 <= k < rest.len() && rest[k].0 == n;
                    assert(rest[k] == vars[k + 1]);
                    assert(!keys_match(vars[0].0, vars[k + 1].0));
                }
            } else {
                assert(res[i] == tail[i - 1]);
                assert(res[j] == tail[j - 1]);
            }
        }
    }
}

/// Each name after setting a variable is `key` or a name that was there before.
proof fn lemma_set_env_names(vars: Seq<(Seq<u16>, Seq<u16>)>, key: Seq<u16>, value: Seq<u16>)
    ensures
        forall|j: int|
            0 <= j < set_env_spec(vars, key, value).len() ==> (#[trigger] set_env_spec(
                vars,
                key,
                value,
            )[j]).0 == key || exists|k: int|
                0 <= k < vars.len() && vars[k].0 == set_env_spec(vars, key, value)[j].0,
    decreases vars.len(),
{
    let res = set_env_spec(vars, key, value);
    if vars.len() == 0 {
    } else if keys_match(vars[0].0, key) {
        assert forall|j: int| 0 <= j < res.len() implies (#[trigger] res[j]).0 == key || exists|
            k: int,
        | 0 <= k < vars.len() && vars[k].0 == res[j].0 by {
            assert(vars[j].0 == res[j].0);
        }
    } else {
        let rest = vars.drop_first();
        lemma_set_env_names(rest, key, value);
        let tail = set_env_spec(rest, key, value);
        assert forall|j: int| 0 <= j < res.len() implies (#[trigger] res[j]).0 == key || exists|
            k: int,
        | 0 <= k < vars.len() && vars[k].0 == res[j].0 by {
            if j == 0 {
                assert(vars[0].0 == res[0].0);
            } else {
                assert(res[j] == tail[j - 1]);
                if tail[j - 1].0 != key {
                    let k = choose|k: int| 0 <= k < rest.len() && rest[k].0 == tail[j - 1].0;
                    assert(vars[k + 1].0 == res[j].0);
                }
            }
        }
    }
}

/// After the launcher's variables are set over the environment, each of them reads back
/// the value given for it, unless a later one of them has a matching name (then the
/// later one wins).
pub proof fn law_merge_env_lookup(
    vars: Seq<(Seq<u16>, Seq<u16>)>,
    extra: Seq<(Seq<u16>, Seq<u16>)>,
    i: int,
)
    requires
        0 <= i < extra.len(),
        forall|j: int| i < j < extra.len() ==> !keys_match(#[trigger] extra[j].0, extra[i].0),
    ensures
        lookup_env(merge_env_spec(vars, extra), extra[i].0) == Some(extra[i].1),
    decreases extra.len(),
{
    let next = set_env_spec(vars, extra[0].0, extra[0].1);
    let rest = extra.drop_first();
    if i == 0 {
        law_set_env_then_lookup(vars, extra[0].0, extra[0].1);
        lemma_merge_keeps_lookup(next, rest, extra[0].0);
    } else {
        assert forall|j: int| i - 1 < j < rest.len() implies !keys_match(
            #[trigger] rest[j].0,
            rest[i - 1].0,
        ) by {
            assert(rest[j] == extra[j + 1]);
        }
        law_merge_env_lookup(next, rest, i - 1);
    }
}

/// Setting variables whose names do not match `key` leaves its value as it was.
proof fn lemma_merge_keeps_lookup(
    vars: Seq<(Seq<u16>, Seq<u16>)>,
    extra: Seq<(Seq<u16>, Seq<u16>)>,
    key: Seq<u16>,
)
    requires
        forall|j: int| 0 <= j < extra.len() ==> !keys_match(#[trigger] extra[j].0, key),
    ensures
        lookup_env(merge_env_spec(vars, extra), key) == lookup_env(vars, key),
    decreases extra.len(),
{
    if extra.len() > 0 {
        lemma_keys_match_symmetric(extra[0].0, key);
        law_set_env_keeps_others(vars, extra[0].0, extra[0].1, key);
        let rest = extra.drop_first();
        assert forall|j: int| 0 <= j < rest.len() implies !keys_match(#[trigger] rest[j].0, key) by {
            assert(rest[j] == extra[j + 1]);
        }
        lemma_merge_keeps_lookup(set_env_spec(vars, extra[0].0, extra[0].1), rest, key);
    }
}

/// Setting the launcher's variables over an environment with no two matching names
/// leaves no two matching names either.
pub proof fn law_merge_env_keeps_keys_distinct(
    vars: Seq<(Seq<u16>, Seq<u16>)>,
    extra: Seq<(Seq<u16>, Seq<u16>)>,
)
    requires
        distinct_keys(vars),
    ensures
        distinct_keys(merge_env_spec(vars, extra)),
    decreases extra.len(),
{
    if extra.len() > 0 {
        law_set_env_keeps_keys_distinct(vars, extra[0].0, extra[0].1);
        law_merge_env_keeps_keys_distinct(
            set_env_spec(vars, extra[0].0, extra[0].1),
            extra.drop_first(),
        );
    }
}

/// The pieces of `s` between occurrences of `sep`, the current piece starting with `cur`.
pub open spec fn split_units_from(s: Seq<u16>, sep: u16, cur: Seq<u16>) -> Seq<Seq<u16>>
    decreases s.len(),
{
    if s.len() == 0 {
        seq![cur]
    } else if s[0] == sep {
        seq![cur] + split_units_from(s.drop_first(), sep, seq![])
    } else {
        split_units_from(s.drop_first(), sep, cur.push(s[0]))
    }
}

/// The pieces of `s` between occurrences of `sep`.
pub open spec fn split_units(s: Seq<u16>, sep: u16) -> Seq<Seq<u16>> {
    split_units_from(s, sep, seq![])
}

/// Whether `s` holds no NUL.
pub open spec fn no_nul(s: Seq<u16>) -> bool {
    forall|i: int| 0 <= i < s.len() ==> #[trigger] s[i] != 0u16
}

/// How one variable is written: its name, `=`, its whole value.
pub open spec fn entry_text(var: (Seq<u16>, Seq<u16>)) -> Seq<u16> {
    var.0 + seq![0x3Du16] + var.1
}

proof fn lemma_split_units_piece(x: Seq<u16>, y: Seq<u16>, cur: Seq<u16>)
    requires
        no_nul(x),
    ensures
        split_units_from(x + seq![0u16] + y, 0u16, cur) == seq![cur + x] + split_units(y, 0u16),
    decreases x.len(),
{
    let t = x + seq![0u16] + y;
    if x.len() == 0 {
        assert(t[0] == 0u16);
        assert(t.drop_first() =~= y);
        assert(cur + x =~= cur);
    } else {
        assert(t[0] == x[0]);
        assert(t.drop_first() =~= x.drop_first() + seq![0u16] + y);
        assert(cur.push(x[0]) + x.drop_first() =~= cur + x);
        lemma_split_units_piece(x.drop_first(), y, cur.push(x[0]));
    }
}

proof fn lemma_env_entries_concat(a: Seq<(Seq<u16>, Seq<u16>)>, b: Seq<(Seq<u16>, Seq<u16>)>)
    ensures
        env_entries_spec(a + b) == env_entries_spec(a) + env_entries_spec(b),
    decreases b.len(),
{
    if b.len() == 0 {
        assert(a + b =~= a);
        assert(env_entries_spec(a) + env_entries_spec(b) =~= env_entries_spec(a));
    } else {
        assert((a + b).drop_last() =~= a + b.drop_last());
        assert((a + b).last() == b.last());
        lemma_env_entries_concat(a, b.drop_last());
        assert(env_entries_spec(a + b) =~= env_entries_spec(a) + env_entries_spec(b));
    }
}

proof fn lemma_split_entries(vars: Seq<(Seq<u16>, Seq<u16>)>, tail: Seq<u16>)
    requires
        forall|i: int| 0 <= i < vars.len() ==> no_nul(#[trigger] vars[i].0) && no_nul(vars[i].1),
    ensures
        split_units(env_entries_spec(vars) + tail, 0u16) == vars.map_values(
            |v: (Seq<u16>, Seq<u16>)| entry_text(v),
        ) + split_units(tail, 0u16),
    decreases vars.len(),
{
    let texts = vars.map_values(|v: (Seq<u16>, Seq<u16>)| entry_text(v));
    if vars.len() == 0 {
        assert(env_entries_spec(vars) + tail =~= tail);
        assert(texts + split_units(tail, 0u16) =~= split_units(tail, 0u16));
    } else {
        let first = seq![vars[0]];
        let rest = vars.drop_first();
        assert(vars =~= first + rest);
        lemma_env_entries_concat(first, rest);
        assert(first.drop_last() =~= Seq::<(Seq<u16>, Seq<u16>)>::empty());
        assert(first.last() == vars[0]);
        assert(env_entries_spec(first.drop_last()) == Seq::<u16>::empty());
        let e = entry_text(vars[0]);
        assert(env_entries_spec(first) =~= e + seq![0u16]);
        assert(no_nul(vars[0].0) && no_nul(vars[0].1));
        assert(no_nul(e));
        assert(env_entries_spec(vars) + tail =~= e + seq![0u16] + (env_entries_spec(rest) + tail));
        lemma_split_units_piece(e, env_entries_spec(rest) + tail, seq![]);
        assert(Seq::<u16>::empty() + e =~= e);
        assert(forall|i: int| 0 <= i < rest.len() ==> rest[i] == vars[i + 1]);
        lemma_split_entries(rest, tail);
        let rtexts = rest.map_values(|v: (Seq<u16>, Seq<u16>)| entry_text(v));
        assert(texts =~= seq![e] + rtexts);
    }
}

/// The environment block reads back as its variables: splitting it at its NULs gives,
/// for each variable in order, its name, `=` and its whole value, and then the two empty
/// pieces of the closing NULs. No value is cut short and no variable is lost.
pub proof fn law_env_block_reads_back(vars: Seq<(Seq<u16>, Seq<u16>)>)
    requires
        forall|i: int| 0 <= i < vars.len() ==> no_nul(#[trigger] vars[i].0) && no_nul(vars[i].1),
    ensures
        split_units(env_block_spec(vars), 0u16) == vars.map_values(
            |v: (Seq<u16>, Seq<u16>)| v.0 + seq![0x3Du16] + v.1,
        ) + seq![Seq::<u16>::empty(), Seq::<u16>::empty()],
{
    lemma_split_entries(vars, seq![0u16]);
    let t = seq![0u16];
    assert(t[0] == 0u16);
    assert(t.drop_first() =~= Seq::<u16>::empty());
    assert(split_units_from(t.drop_first(), 0u16, seq![]) == seq![Seq::<u16>::empty()]);
    assert(split_units(t, 0u16) == seq![Seq::<u16>::empty()] + split_units_from(
        t.drop_first(),
        0u16,
        seq![],
    ));
    assert(split_units(t, 0u16) =~= seq![Seq::<u16>::empty(), Seq::<u16>::empty()]);
    assert(vars.map_values(|v: (Seq<u16>, Seq<u16>)| entry_text(v)) =~= vars.map_values(
        |v: (Seq<u16>, Seq<u16>)| v.0 + seq![0x3Du16] + v.1,
    ));
}

} // verus!
