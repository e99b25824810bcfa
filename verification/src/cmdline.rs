//! Windows command lines: each argument is quoted by the MSVC rules so that the
//! C runtime of the started program reads back exactly the arguments given.

use vstd::prelude::*;
use crate::text::{chars_of, push_char};
use crate::utf16::{law_utf16_roundtrip, push_utf16, utf16_decode, utf16_spec};

verus! {

/// `n` backslashes.
pub open spec fn backslashes(n: nat) -> Seq<char> {
    Seq::new(n, |_i: int| '\\')
}

/// Whether `c` separates arguments on a command line.
pub open spec fn is_separator(c: char) -> bool {
    c == ' ' || c == '\t'
}

/// Whether `arg` must be written in quotes: it is empty, or holds a space, a tab or a `"`.
pub open spec fn needs_quotes(arg: Seq<char>) -> bool {
    arg.len() == 0 || exists|i: int|
        0 <= i < arg.len() && (is_separator(#[trigger] arg[i]) || arg[i] == '"')
}

/// The inside of the quotes for `s`, `pending` backslashes having been read and not yet
/// written: a run of backslashes is written as it is, but doubled where a `"` or the end
/// follows it, and each `"` is written as `\"`.
pub open spec fn escape_from(s: Seq<char>, pending: nat) -> Seq<char>
    decreases s.len(),
{
    if s.len() == 0 {
        backslashes(2 * pending)
    } else if s[0] == '\\' {
        escape_from(s.drop_first(), pending + 1)
    } else if s[0] == '"' {
        backslashes(2 * pending) + seq!['\\', '"'] + escape_from(s.drop_first(), 0)
    } else {
        backslashes(pending) + seq![s[0]] + escape_from(s.drop_first(), 0)
    }
}

/// How one argument is written on the command line: as it is where it needs no quotes,
/// else in quotes with its backslashes and quotes escaped.
pub open spec fn quote_arg_spec(arg: Seq<char>) -> Seq<char> {
    if needs_quotes(arg) {
        seq!['"'] + escape_from(arg, 0) + seq!['"']
    } else {
        arg
    }
}

/// The arguments after the program, each written with a space in front of it.
pub open spec fn args_text(args: Seq<Seq<char>>) -> Seq<char>
    decreases args.len(),
{
    if args.len() == 0 {
        seq![]
    } else {
        seq![' '] + quote_arg_spec(args[0]) + args_text(args.drop_first())
    }
}

/// The command line for `program` and `args`: every piece quoted, separated by spaces.
pub open spec fn command_line_spec(program: Seq<char>, args: Seq<Seq<char>>) -> Seq<char> {
    quote_arg_spec(program) + args_text(args)
}

// How a program's C runtime reads its command line (the MSVC rules), as far as the
// forms written above go. Where these functions give `Some`, the MSVC rules read the
// same; they give `None` for the forms that they leave out (a closing quote followed
// by more of the same argument or program name, a quote inside an unquoted argument).
// The program name is read by a rule of its own, with no backslash escapes.

/// Reads the rest of a quoted argument after its opening quote, `pending` backslashes
/// having been read: `2n` backslashes before a `"` are `n` backslashes and the closing
/// quote, `2n + 1` are `n` backslashes and a literal `"`, and backslashes before any
/// other character stand for themselves. Gives the argument and what follows the
/// closing quote.
pub open spec fn read_quoted(t: Seq<char>, pending: nat) -> Option<(Seq<char>, Seq<char>)>
    decreases t.len(),
{
    if t.len() == 0 {
        None
    } else if t[0] == '\\' {
        read_quoted(t.drop_first(), pending + 1)
    } else if t[0] == '"' {
        if pending % 2 == 0 {
            Some((backslashes(pending / 2), t.drop_first()))
        } else {
            match read_quoted(t.drop_first(), 0) {
                Some((a, r)) => Some((backslashes(pending / 2) + seq!['"'] + a, r)),
                None => None,
            }
        }
    } else {
        match read_quoted(t.drop_first(), 0) {
            Some((a, r)) => Some((backslashes(pending) + seq![t[0]] + a, r)),
            None => None,
        }
    }
}

/// Reads an unquoted argument up to the next separator or the end; no `"` may occur in it.
pub open spec fn read_bare(t: Seq<char>) -> Option<(Seq<char>, Seq<char>)>
    decreases t.len(),
{
    if t.len() == 0 || is_separator(t[0]) {
        Some((seq![], t))
    } else if t[0] == '"' {
        None
    } else {
        match read_bare(t.drop_first()) {
            Some((a, r)) => Some((seq![t[0]] + a, r)),
            None => None,
        }
    }
}

/// Reads one argument at the front of `t`; what follows it is empty or starts with a
/// separator.
pub open spec fn read_arg(t: Seq<char>) -> Option<(Seq<char>, Seq<char>)> {
    let read = if t.len() > 0 && t[0] == '"' {
        read_quoted(t.drop_first(), 0)
    } else {
        read_bare(t)
    };
    match read {
        Some((a, r)) => if (t.len() > 0 && t[0] == '"' || a.len() > 0) && (r.len() == 0
            || is_separator(r[0])) {
            Some((a, r))
        } else {
            None
        },
        None => None,
    }
}

/// `t` without its leading separators.
pub open spec fn skip_separators(t: Seq<char>) -> Seq<char>
    decreases t.len(),
{
    if t.len() > 0 && is_separator(t[0]) {
        skip_separators(t.drop_first())
    } else {
        t
    }
}

/// The arguments that follow the program name on a command line.
pub open spec fn parse_arguments(t: Seq<char>) -> Option<Seq<Seq<char>>>
    decreases t.len(),
{
    let u = skip_separators(t);
    if u.len() == 0 {
        Some(seq![])
    } else {
        match read_arg(u) {
            Some((a, r)) => if r.len() < t.len() {
                match parse_arguments(r) {
                    Some(rest) => Some(seq![a] + rest),
                    None => None,
                }
            } else {
                None
            },
            None => None,
        }
    }
}

/// Reads a quoted program name after its opening quote: everything up to the next `"`,
/// backslashes included as they are. Gives the name and what follows the closing quote.
pub open spec fn read_program_quoted(t: Seq<char>) -> Option<(Seq<char>, Seq<char>)>
    decreases t.len(),
{
    if t.len() == 0 {
        None
    } else if t[0] == '"' {
        Some((seq![], t.drop_first()))
    } else {
        match read_program_quoted(t.drop_first()) {
            Some((a, r)) => Some((seq![t[0]] + a, r)),
            None => None,
        }
    }
}

/// Reads the program name at the front of `t`: in quotes up to the next quote, or else up
/// to the next separator; what follows it is empty or starts with a separator.
pub open spec fn read_program(t: Seq<char>) -> Option<(Seq<char>, Seq<char>)> {
    let quoted = t.len() > 0 && t[0] == '"';
    let read = if quoted {
        read_program_quoted(t.drop_first())
    } else {
        read_bare(t)
    };
    match read {
        Some((a, r)) => if (quoted || a.len() > 0) && (r.len() == 0 || is_separator(r[0])) {
            Some((a, r))
        } else {
            None
        },
        None => None,
    }
}

/// The program name and the arguments that a command line holds.
pub open spec fn parse_command_line(t: Seq<char>) -> Option<Seq<Seq<char>>> {
    let u = skip_separators(t);
    if u.len() == 0 {
        Some(seq![])
    } else {
        match read_program(u) {
            Some((p, r)) => match parse_arguments(r) {
                Some(rest) => Some(seq![p] + rest),
                None => None,
            },
            None => None,
        }
    }
}

/// Whether the program-name rule reads `program` back from its quoted form: it holds no
/// `"`, and where it is quoted it does not end in a backslash (which would be doubled).
/// Windows file names hold no `"`, and a program's path does not end in a backslash.
pub open spec fn program_name_readable(program: Seq<char>) -> bool {
    &&& forall|i: int| 0 <= i < program.len() ==> #[trigger] program[i] != '"'
    &&& needs_quotes(program) && program.len() > 0 ==> program.last() != '\\'
}

/// Appends `n` backslashes to `out`.
fn push_backslashes(out: &mut String, n: usize)
    ensures
        final(out)@ == old(out)@ + backslashes(n as nat),
{
    let ghost start = out@;
    let mut k: usize = 0;
    while k < n
        invariant
            k <= n,
            out@ == start + backslashes(k as nat),
        decreases n - k,
    {
        push_char(out, '\\');
        k = k + 1;
        assert(out@ =~= start + backslashes(k as nat));
    }
}

proof fn lemma_backslashes_add(a: nat, b: nat)
    ensures
        backslashes(a) + backslashes(b) == backslashes(a + b),
{
    assert(backslashes(a) + backslashes(b) =~= backslashes(a + b));
}

/// Whether `arg` must be quoted.
fn arg_needs_quotes(cs: &[char]) -> (res: bool)
    ensures
        res == needs_quotes(cs@),
{
    if cs.len() == 0 {
        return true;
    }
    let mut i: usize = 0;
    while i < cs.len()
        invariant
            i <= cs@.len(),
            forall|j: int| 0 <= j < i ==> !(is_separator(#[trigger] cs@[j]) || cs@[j] == '"'),
        decreases cs@.len() - i,
    {
        let c = cs[i];
        if c == ' ' || c == '\t' || c == '"' {
            assert(is_separator(cs@[i as int]) || cs@[i as int] == '"');
            return true;
        }
        i = i + 1;
    }
    false
}

/// Appends the quoted form of `cs` to `out`.
fn push_quoted(out: &mut String, cs: &[char])
    ensures
        final(out)@ == old(out)@ + quote_arg_spec(cs@),
{
    if !arg_needs_quotes(cs) {
        crate::text::push_chars(out, cs, 0, cs.len());
        assert(cs@.subrange(0, cs@.len() as int) =~= cs@);
        return;
    }
    let ghost start = out@;
    push_char(out, '"');
    let mut pending: usize = 0;
    let mut i: usize = 0;
    assert(cs@.skip(0) =~= cs@);
    while i < cs.len()
        invariant
            i <= cs@.len(),
            pending <= i,
            start + seq!['"'] + escape_from(cs@, 0) == out@ + escape_from(
                cs@.skip(i as int),
                pending as nat,
            ),
        decreases cs@.len() - i,
    {
        let ghost before = out@;
        let c = cs[i];
        assert(cs@.skip(i as int).drop_first() =~= cs@.skip(i + 1));
        if c == '\\' {
            pending = pending + 1;
        } else if c == '"' {
            push_backslashes(out, pending);
            push_backslashes(out, pending);
            push_char(out, '\\');
            push_char(out, '"');
            proof {
                lemma_backslashes_add(pending as nat, pending as nat);
                assert(out@ =~= before + backslashes(2 * pending as nat) + seq!['\\', '"']);
            }
            pending = 0;
        } else {
            push_backslashes(out, pending);
            push_char(out, c);
            assert(out@ =~= before + backslashes(pending as nat) + seq![c]);
            pending = 0;
        }
        i = i + 1;
    }
    let ghost before = out@;
    push_backslashes(out, pending);
    push_backslashes(out, pending);
    push_char(out, '"');
    proof {
        lemma_backslashes_add(pending as nat, pending as nat);
        assert(cs@.skip(i as int) =~= Seq::<char>::empty());
        assert(out@ =~= before + backslashes(2 * pending as nat) + seq!['"']);
        assert(out@ =~= start + quote_arg_spec(cs@));
    }
}

/// Quotes one command-line argument by the MSVC rules.
pub fn quote_arg(arg: &str) -> (res: String)
    ensures
        res@ == quote_arg_spec(arg@),
{
    let cs = chars_of(arg);
    let mut out = String::new();
    push_quoted(&mut out, cs.as_slice());
    out
}

/// The views of a list of strings.
pub open spec fn string_views(args: Seq<String>) -> Seq<Seq<char>> {
    args.map_values(|a: String| a@)
}

proof fn lemma_args_text_push(args: Seq<Seq<char>>, arg: Seq<char>)
    ensures
        args_text(args.push(arg)) == args_text(args) + seq![' '] + quote_arg_spec(arg),
    decreases args.len(),
{
    if args.len() == 0 {
        assert(args.push(arg).drop_first() =~= Seq::<Seq<char>>::empty());
        assert(args.push(arg)[0] == arg);
        assert(args_text(Seq::<Seq<char>>::empty()) == Seq::<char>::empty());
        assert(args_text(args.push(arg)) =~= args_text(args) + seq![' '] + quote_arg_spec(arg));
    } else {
        assert(args.push(arg).drop_first() =~= args.drop_first().push(arg));
        assert(args.push(arg)[0] == args[0]);
        lemma_args_text_push(args.drop_first(), arg);
        let q0 = quote_arg_spec(args[0]);
        let rest = args_text(args.drop_first());
        assert(args_text(args.push(arg)) == seq![' '] + q0 + (rest + seq![' '] + quote_arg_spec(
            arg,
        )));
        assert(args_text(args) == seq![' '] + q0 + rest);
        assert(args_text(args.push(arg)) =~= args_text(args) + seq![' '] + quote_arg_spec(arg));
    }
}

/// The command line for `program` and `args`, as text.
fn command_line_text(program: &str, args: &[String]) -> (res: String)
    ensures
        res@ == command_line_spec(program@, string_views(args@)),
{
    let mut out = String::new();
    let pcs = chars_of(program);
    push_quoted(&mut out, pcs.as_slice());
    let mut i: usize = 0;
    assert(string_views(args@).take(0) =~= Seq::<Seq<char>>::empty());
    while i < args.len()
        invariant
            i <= args@.len(),
            out@ == quote_arg_spec(program@) + args_text(string_views(args@).take(i as int)),
        decreases args@.len() - i,
    {
        let ghost before = out@;
        push_char(&mut out, ' ');
        let acs = chars_of(args[i].as_str());
        push_quoted(&mut out, acs.as_slice());
        proof {
            let views = string_views(args@);
            assert(views.take(i + 1) =~= views.take(i as int).push(views[i as int]));
            lemma_args_text_push(views.take(i as int), views[i as int]);
            assert(out@ =~= quote_arg_spec(program@) + args_text(views.take(i + 1)));
        }
        i = i + 1;
    }
    assert(string_views(args@).take(args@.len() as int) =~= string_views(args@));
    out
}

/// The command line that `CreateProcessW` takes for `program` and `args`: UTF-16, ending
/// in a NUL.
pub fn build_command_line(program: &str, args: &[String]) -> (res: Vec<u16>)
    ensures
        res@ == utf16_spec(command_line_spec(program@, string_views(args@))) + seq![0u16],
{
    let text = command_line_text(program, args);
    let cs = chars_of(text.as_str());
    let mut wide: Vec<u16> = Vec::new();
    push_utf16(&mut wide, cs.as_slice());
    wide.push(0);
    assert(wide@ =~= utf16_spec(command_line_spec(program@, string_views(args@))) + seq![0u16]);
    wide
}

proof fn lemma_read_quoted_backslashes(k: nat, t: Seq<char>, pending: nat)
    ensures
        read_quoted(backslashes(k) + t, pending) == read_quoted(t, pending + k),
    decreases k,
{
    if k > 0 {
        let s = backslashes(k) + t;
        assert(s[0] == '\\');
        assert(s.drop_first() =~= backslashes((k - 1) as nat) + t);
        lemma_read_quoted_backslashes((k - 1) as nat, t, pending + 1);
    } else {
        assert(backslashes(k) + t =~= t);
    }
}

proof fn lemma_read_escaped(s: Seq<char>, pending: nat, rest: Seq<char>)
    ensures
        read_quoted(escape_from(s, pending) + seq!['"'] + rest, 0) == Some(
            (backslashes(pending) + s, rest),
        ),
    decreases s.len(),
{
    let e = escape_from(s, pending);
    if s.len() == 0 {
        assert(e + seq!['"'] + rest =~= backslashes(2 * pending) + (seq!['"'] + rest));
        lemma_read_quoted_backslashes(2 * pending, seq!['"'] + rest, 0);
        let q = seq!['"'] + rest;
        assert(q[0] == '"');
        assert(q.drop_first() =~= rest);
        assert((2 * pending) % 2 == 0);
        assert((2 * pending) / 2 == pending);
        assert(read_quoted(q, 2 * pending) == Some((backslashes(pending), rest)));
        assert(backslashes(pending) + s =~= backslashes(pending));
        assert(read_quoted(e + seq!['"'] + rest, 0) == Some((backslashes(pending) + s, rest)));
    } else if s[0] == '\\' {
        lemma_read_escaped(s.drop_first(), pending + 1, rest);
        assert(backslashes(pending + 1) + s.drop_first() =~= backslashes(pending) + s);
        assert(read_quoted(e + seq!['"'] + rest, 0) == Some((backslashes(pending) + s, rest)));
    } else if s[0] == '"' {
        let e2 = escape_from(s.drop_first(), 0);
        lemma_read_escaped(s.drop_first(), 0, rest);
        let t = e + seq!['"'] + rest;
        assert(t =~= backslashes(2 * pending) + (seq!['\\', '"'] + e2 + seq!['"'] + rest));
        lemma_read_quoted_backslashes(2 * pending, seq!['\\', '"'] + e2 + seq!['"'] + rest, 0);
        let u = seq!['\\', '"'] + e2 + seq!['"'] + rest;
        assert(u.drop_first() =~= seq!['"'] + e2 + seq!['"'] + rest);
        let w = seq!['"'] + e2 + seq!['"'] + rest;
        assert(u[0] == '\\');
        assert(w[0] == '"');
        assert(w.drop_first() =~= e2 + seq!['"'] + rest);
        assert((2 * pending + 1) % 2 == 1);
        assert((2 * pending + 1) / 2 == pending);
        assert(backslashes(0) + s.drop_first() =~= s.drop_first());
        assert(backslashes(pending) + seq!['"'] + s.drop_first() =~= backslashes(pending) + s);
        assert(read_quoted(w.drop_first(), 0) == Some((s.drop_first(), rest)));
        assert(read_quoted(w, 2 * pending + 1) == Some((backslashes(pending) + seq!['"'] + s.drop_first(), rest)));
        assert(read_quoted(u, 2 * pending) == read_quoted(w, 2 * pending + 1));
        assert(read_quoted(t, 0) == read_quoted(u, 2 * pending));
        assert(read_quoted(e + seq!['"'] + rest, 0) == Some((backslashes(pending) + s, rest)));
    } else {
        let e2 = escape_from(s.drop_first(), 0);
        lemma_read_escaped(s.drop_first(), 0, rest);
        let t = e + seq!['"'] + rest;
        assert(t =~= backslashes(pending) + (seq![s[0]] + e2 + seq!['"'] + rest));
        lemma_read_quoted_backslashes(pending, seq![s[0]] + e2 + seq!['"'] + rest, 0);
        let u = seq![s[0]] + e2 + seq!['"'] + rest;
        assert(u[0] == s[0]);
        assert(u.drop_first() =~= e2 + seq!['"'] + rest);
        assert(backslashes(0) + s.drop_first() =~= s.drop_first());
        assert(backslashes(pending) + seq![s[0]] + s.drop_first() =~= backslashes(pending) + s);
        assert(read_quoted(e + seq!['"'] + rest, 0) == Some((backslashes(pending) + s, rest)));
    }
}

proof fn lemma_read_bare(arg: Seq<char>, rest: Seq<char>)
    requires
        forall|i: int| 0 <= i < arg.len() ==> !(is_separator(#[trigger] arg[i]) || arg[i] == '"'),
        rest.len() == 0 || is_separator(rest[0]),
    ensures
        read_bare(arg + rest) == Some((arg, rest)),
    decreases arg.len(),
{
    if arg.len() == 0 {
        assert(arg + rest =~= rest);
    } else {
        assert((arg + rest).drop_first() =~= arg.drop_first() + rest);
        assert(forall|i: int| 0 <= i < arg.drop_first().len() ==> arg.drop_first()[i] == arg[i + 1]);
        lemma_read_bare(arg.drop_first(), rest);
        assert(seq![arg[0]] + arg.drop_first() =~= arg);
        assert(!(is_separator(arg[0]) || arg[0] == '"'));
    }
}

/// Reading back a quoted argument: whatever follows it, provided that it is empty or
/// starts with a separator, the MSVC rules read `arg` itself back from the quoted form
/// and leave what follows untouched.
pub proof fn lemma_quote_arg_roundtrip(arg: Seq<char>, rest: Seq<char>)
    requires
        rest.len() == 0 || is_separator(rest[0]),
    ensures
        read_arg(quote_arg_spec(arg) + rest) == Some((arg, rest)),
{
    let t = quote_arg_spec(arg) + rest;
    if needs_quotes(arg) {
        assert(t[0] == '"');
        assert(t.drop_first() =~= escape_from(arg, 0) + seq!['"'] + rest);
        lemma_read_escaped(arg, 0, rest);
        assert(backslashes(0) + arg =~= arg);
    } else {
        assert(arg.len() > 0);
        assert(!(is_separator(arg[0]) || arg[0] == '"'));
        lemma_read_bare(arg, rest);
    }
}

proof fn lemma_skip_separators_quoted(arg: Seq<char>, rest: Seq<char>)
    ensures
        skip_separators(quote_arg_spec(arg) + rest) == quote_arg_spec(arg) + rest,
        (quote_arg_spec(arg) + rest).len() > 0,
{
    if !needs_quotes(arg) {
        assert(arg.len() > 0);
        assert(!(is_separator(arg[0]) || arg[0] == '"'));
        assert((quote_arg_spec(arg) + rest)[0] == arg[0]);
    } else {
        assert((quote_arg_spec(arg) + rest)[0] == '"');
    }
}

proof fn lemma_parse_args_text(args: Seq<Seq<char>>)
    ensures
        parse_arguments(args_text(args)) == Some(args),
    decreases args.len(),
{
    let t = args_text(args);
    if args.len() == 0 {
        assert(skip_separators(t) =~= Seq::<char>::empty());
    } else {
        let tail = args_text(args.drop_first());
        let q = quote_arg_spec(args[0]);
        assert(t == seq![' '] + q + tail);
        assert(t.drop_first() =~= q + tail);
        lemma_skip_separators_quoted(args[0], tail);
        assert(skip_separators(t) == q + tail);
        lemma_tail_starts_with_separator(args.drop_first());
        lemma_quote_arg_roundtrip(args[0], tail);
        lemma_parse_args_text(args.drop_first());
        assert(seq![args[0]] + args.drop_first() =~= args);
    }
}

proof fn lemma_tail_starts_with_separator(args: Seq<Seq<char>>)
    ensures
        args_text(args).len() == 0 || is_separator(args_text(args)[0]),
{
    if args.len() > 0 {
        assert(args_text(args)[0] == ' ');
    }
}

/// With no `"` and no trailing backslash, the inside of the quotes is the text itself.
proof fn lemma_escape_plain(s: Seq<char>, pending: nat)
    requires
        forall|i: int| 0 <= i < s.len() ==> #[trigger] s[i] != '"',
        s.len() == 0 ==> pending == 0,
        s.len() > 0 ==> s.last() != '\\',
    ensures
        escape_from(s, pending) == backslashes(pending) + s,
    decreases s.len(),
{
    if s.len() == 0 {
        assert(backslashes(0) + s =~= Seq::<char>::empty());
    } else {
        let r = s.drop_first();
        assert(forall|i: int| 0 <= i < r.len() ==> r[i] == s[i + 1]);
        assert(s[0] != '"');
        if s[0] == '\\' {
            assert(r.len() > 0);
            assert(r.last() == s.last());
            lemma_escape_plain(r, pending + 1);
            assert(backslashes(pending + 1) + r =~= backslashes(pending) + s);
        } else {
            if r.len() > 0 {
                assert(r.last() == s.last());
            }
            lemma_escape_plain(r, 0);
            assert(backslashes(0) + r =~= r);
            assert(backslashes(pending) + seq![s[0]] + r =~= backslashes(pending) + s);
        }
    }
}

proof fn lemma_read_program_quoted(program: Seq<char>, rest: Seq<char>)
    requires
        forall|i: int| 0 <= i < program.len() ==> #[trigger] program[i] != '"',
    ensures
        read_program_quoted(program + seq!['"'] + rest) == Some((program, rest)),
    decreases program.len(),
{
    let t = program + seq!['"'] + rest;
    if program.len() == 0 {
        assert(t =~= seq!['"'] + rest);
        assert(t[0] == '"');
        assert(t.drop_first() =~= rest);
    } else {
        let r = program.drop_first();
        assert(forall|i: int| 0 <= i < r.len() ==> r[i] == program[i + 1]);
        assert(t[0] == program[0]);
        assert(t.drop_first() =~= r + seq!['"'] + rest);
        lemma_read_program_quoted(r, rest);
        assert(seq![program[0]] + r =~= program);
    }
}

/// Reading back the program name: the program-name rule reads `program` itself from its
/// quoted form and leaves what follows untouched.
pub proof fn lemma_program_roundtrip(program: Seq<char>, rest: Seq<char>)
    requires
        program_name_readable(program),
        rest.len() == 0 || is_separator(rest[0]),
    ensures
        read_program(quote_arg_spec(program) + rest) == Some((program, rest)),
{
    let t = quote_arg_spec(program) + rest;
    if needs_quotes(program) {
        lemma_escape_plain(program, 0);
        assert(backslashes(0) + program =~= program);
        assert(t[0] == '"');
        assert(t.drop_first() =~= program + seq!['"'] + rest);
        lemma_read_program_quoted(program, rest);
    } else {
        assert(program.len() > 0);
        assert(!(is_separator(program[0]) || program[0] == '"'));
        lemma_read_bare(program, rest);
    }
}

/// What the command line holds: the C runtime reads back the program name (by its own
/// rule) and then each argument (by the MSVC rules), unchanged and in order.
pub proof fn law_command_line_roundtrip(program: Seq<char>, args: Seq<Seq<char>>)
    requires
        program_name_readable(program),
    ensures
        parse_command_line(command_line_spec(program, args)) == Some(seq![program] + args),
{
    let tail = args_text(args);
    lemma_skip_separators_quoted(program, tail);
    lemma_tail_starts_with_separator(args);
    lemma_program_roundtrip(program, tail);
    lemma_parse_args_text(args);
}

/// What `build_command_line` hands to `CreateProcessW` reads back, through UTF-16 and the
/// C runtime's rules, as the program and then each argument, unchanged and in order.
pub proof fn law_build_command_line_reads_back(program: Seq<char>, args: Seq<Seq<char>>)
    requires
        program_name_readable(program),
    ensures
        utf16_decode(utf16_spec(command_line_spec(program, args))) matches Some(text)
            && parse_command_line(text) == Some(seq![program] + args),
{
    law_utf16_roundtrip(command_line_spec(program, args));
    law_command_line_roundtrip(program, args);
}

} // verus!
