//! `Exec` lines: how the command line of a desktop entry is split into
//! arguments.
//!
//! Splitting on white space is not enough: an argument that holds a reserved
//! character is quoted. Inside double quotes `\` escapes `"`, `` ` ``, `$` and
//! itself, and a `%` is literal, so percent-encoded URLs survive intact. Single
//! quotes are accepted too; everything up to the closing one is literal.
//! Outside quotes, field codes (`%U`, `%f` and so on) are dropped, except those
//! that carry content.
use vstd::prelude::*;

use crate::text::{chars_of, copy, is_space, is_space_char, texts, whole, words, words_from};

verus! {

/// What the field codes `%i`, `%c` and `%k` stand for.
#[derive(Debug)]
pub struct ExecContext<'a> {
    pub icon: &'a str,
    pub name: &'a str,
    pub desktop_file: &'a str,
}

impl<'a> Default for ExecContext<'a> {
    fn default() -> (r: Self)
        ensures
            r@.icon.len() == 0,
            r@.name.len() == 0,
            r@.desktop_file.len() == 0,
    {
        proof {
            reveal_strlit("");
        }
        ExecContext { icon: "", name: "", desktop_file: "" }
    }
}

/// What an [`ExecContext`] holds.
pub struct ContextView {
    pub icon: Seq<char>,
    pub name: Seq<char>,
    pub desktop_file: Seq<char>,
}

impl<'a> View for ExecContext<'a> {
    type V = ContextView;

    open spec fn view(&self) -> ContextView {
        ContextView { icon: self.icon@, name: self.name@, desktop_file: self.desktop_file@ }
    }
}

/// The context in which every code stands for nothing.
pub open spec fn no_context() -> ContextView {
    ContextView { icon: Seq::empty(), name: Seq::empty(), desktop_file: Seq::empty() }
}

/// The characters that a backslash escapes inside double quotes.
pub open spec fn escapable(c: char) -> bool {
    c == '"' || c == '`' || c == '$' || c == '\\'
}

/// Whether `s` starts with an escape, where the quote is `q`.
pub open spec fn at_escape(s: Seq<char>, q: char) -> bool {
    q == '"' && s.len() > 1 && s[0] == '\\' && escapable(s[1])
}

/// The text that is quoted where `s` starts just behind the quote `q`. A quote
/// that is never closed reaches to the end.
pub open spec fn quoted_text(s: Seq<char>, q: char) -> Seq<char>
    decreases s.len(),
{
    if s.len() == 0 || s[0] == q {
        Seq::empty()
    } else if at_escape(s, q) {
        seq![s[1]] + quoted_text(s.skip(2), q)
    } else {
        seq![s[0]] + quoted_text(s.skip(1), q)
    }
}

/// What follows the closing quote.
pub open spec fn quoted_rest(s: Seq<char>, q: char) -> Seq<char>
    decreases s.len(),
{
    if s.len() == 0 {
        s
    } else if s[0] == q {
        s.skip(1)
    } else if at_escape(s, q) {
        quoted_rest(s.skip(2), q)
    } else {
        quoted_rest(s.skip(1), q)
    }
}

pub proof fn lemma_quoted_rest_shrinks(s: Seq<char>, q: char)
    ensures
        quoted_rest(s, q).len() <= s.len(),
    decreases s.len(),
{
    if s.len() > 0 && s[0] != q {
        if at_escape(s, q) {
            lemma_quoted_rest_shrinks(s.skip(2), q);
        } else {
            lemma_quoted_rest_shrinks(s.skip(1), q);
        }
    }
}

/// The argument that is being gathered, as a list of arguments.
pub open spec fn flushed(cur: Option<Seq<char>>) -> Seq<Seq<char>> {
    match cur {
        Some(a) => seq![a],
        None => Seq::empty(),
    }
}

/// The argument that is being gathered, with `more` at its end.
pub open spec fn grown(cur: Option<Seq<char>>, more: Seq<char>) -> Option<Seq<char>> {
    match cur {
        Some(a) => Some(a + more),
        None => Some(more),
    }
}

/// `value` as an argument of its own, if there is any value.
pub open spec fn if_any(value: Seq<char>) -> Seq<Seq<char>> {
    if value.len() == 0 {
        Seq::empty()
    } else {
        seq![value]
    }
}

/// What `%i` stands for: two arguments, or nothing when no icon is named.
pub open spec fn icon_args(icon: Seq<char>) -> Seq<Seq<char>> {
    if icon.len() == 0 {
        Seq::empty()
    } else {
        seq!["--icon"@, icon]
    }
}

/// The arguments of the line `s`, where `cur` is the argument that is being
/// gathered, if one is (it may be empty: a quoted argument exists even so).
pub open spec fn argv_from(s: Seq<char>, cur: Option<Seq<char>>, ctx: ContextView) -> Seq<Seq<char>>
    decreases s.len(),
{
    if s.len() == 0 {
        flushed(cur)
    } else if is_space(s[0]) {
        flushed(cur) + argv_from(s.skip(1), None, ctx)
    } else if s[0] == '"' || s[0] == '\'' {
        proof {
            lemma_quoted_rest_shrinks(s.skip(1), s[0]);
        }
        argv_from(
            quoted_rest(s.skip(1), s[0]),
            grown(cur, quoted_text(s.skip(1), s[0])),
            ctx,
        )
    } else if s[0] == '%' {
        if s.len() == 1 {
            flushed(cur)
        } else if s[1] == '%' {
            argv_from(s.skip(2), grown(cur, seq!['%']), ctx)
        } else if s[1] == 'i' {
            flushed(cur) + icon_args(ctx.icon) + argv_from(s.skip(2), None, ctx)
        } else if s[1] == 'c' {
            flushed(cur) + if_any(ctx.name) + argv_from(s.skip(2), None, ctx)
        } else if s[1] == 'k' {
            flushed(cur) + if_any(ctx.desktop_file) + argv_from(s.skip(2), None, ctx)
        } else {
            argv_from(s.skip(2), cur, ctx)
        }
    } else {
        argv_from(s.skip(1), grown(cur, seq![s[0]]), ctx)
    }
}

/// The arguments of an `Exec` line.
pub open spec fn argv(exec: Seq<char>, ctx: ContextView) -> Seq<Seq<char>> {
    argv_from(exec, None, ctx)
}

fn is_escapable(c: char) -> (r: bool)
    ensures
        r == escapable(c),
{
    c == '"' || c == '`' || c == '$' || c == '\\'
}

/// Gather quoted text into `current`, from position `from` on. Returns where
/// the line goes on.
fn take_quoted(cs: &Vec<char>, from: usize, quote: char, current: &mut Vec<char>) -> (r: usize)
    requires
        from <= cs.len(),
        quote == '"' || quote == '\'',
    ensures
        from <= r <= cs.len(),
        final(current)@ == old(current)@ + quoted_text(cs@.skip(from as int), quote),
        cs@.skip(r as int) == quoted_rest(cs@.skip(from as int), quote),
{
    let ghost all = cs@.skip(from as int);
    let ghost start = current@;
    let mut i: usize = from;
    proof {
        assert(start + quoted_text(all, quote) =~= current@ + quoted_text(all, quote));
    }
    while i < cs.len()
        invariant
            from <= i <= cs.len(),
            quote == '"' || quote == '\'',
            start + quoted_text(all, quote) == current@ + quoted_text(cs@.skip(i as int), quote),
            quoted_rest(all, quote) == quoted_rest(cs@.skip(i as int), quote),
            start == old(current)@,
            all == cs@.skip(from as int),
        decreases cs.len() - i,
    {
        let c: char = cs[i];
        let ghost here = cs@.skip(i as int);
        let ghost before = current@;
        proof {
            assert(here[0] == c);
            assert(here.skip(1) =~= cs@.skip(i + 1));
            if here.len() > 1 {
                assert(here[1] == cs@[i + 1]);
                assert(here.skip(2) =~= cs@.skip(i + 2));
            }
        }
        if c == quote {
            proof {
                assert(current@ + Seq::<char>::empty() =~= current@);
            }
            return i + 1;
        }
        if c == '\\' && quote == '"' && cs.len() - i > 1 && is_escapable(cs[i + 1]) {
            current.push(cs[i + 1]);
            proof {
                assert(before + (seq![here[1]] + quoted_text(here.skip(2), quote)) =~= current@
                    + quoted_text(here.skip(2), quote));
            }
            i = i + 2;
        } else {
            current.push(c);
            proof {
                assert(before + (seq![here[0]] + quoted_text(here.skip(1), quote)) =~= current@
                    + quoted_text(here.skip(1), quote));
            }
            i = i + 1;
        }
    }
    proof {
        assert(cs@.skip(i as int).len() == 0);
        assert(current@ + Seq::<char>::empty() =~= current@);
    }
    i
}

/// The argument that is being gathered: `current`, once `has_current` is set.
spec fn gathered(current: Seq<char>, has_current: bool) -> Option<Seq<char>> {
    if has_current {
        Some(current)
    } else {
        None
    }
}

/// Push the argument that is being gathered, if one is, and start afresh.
fn flush(argv: &mut Vec<String>, current: &mut Vec<char>, has_current: bool)
    requires
        !has_current ==> old(current)@.len() == 0,
    ensures
        texts(final(argv)@) == texts(old(argv)@) + flushed(gathered(old(current)@, has_current)),
        final(current)@.len() == 0,
{
    let ghost before = argv@;
    if has_current {
        argv.push(whole(current));
        current.clear();
        proof {
            assert(texts(argv@) =~= texts(before) + seq![old(current)@]);
        }
    } else {
        proof {
            assert(texts(argv@) =~= texts(before) + Seq::<Seq<char>>::empty());
        }
    }
}

/// Push `value` as an argument of its own, if there is any value.
fn push_if_any(argv: &mut Vec<String>, value: &str)
    ensures
        texts(final(argv)@) == texts(old(argv)@) + if_any(value@),
{
    let ghost before = argv@;
    if !value.is_empty() {
        argv.push(copy(value));
        proof {
            assert(texts(argv@) =~= texts(before) + seq![value@]);
        }
    } else {
        proof {
            assert(texts(argv@) =~= texts(before) + Seq::<Seq<char>>::empty());
        }
    }
}

/// Split an `Exec` line into arguments, expanding `%i` (`--icon` and the icon),
/// `%c` (the name) and `%k` (the desktop file).
pub fn parse_exec_with(exec: &str, ctx: &ExecContext) -> (r: Vec<String>)
    ensures
        texts(r@) == argv(exec@, ctx@),
{
    let cs: Vec<char> = chars_of(exec);
    let mut argv_out: Vec<String> = Vec::new();
    let mut current: Vec<char> = Vec::new();
    let mut has_current: bool = false;
    let mut i: usize = 0;
    proof {
        assert(cs@.skip(0) =~= cs@);
        assert(texts(argv_out@) + argv(exec@, ctx@) =~= argv(exec@, ctx@));
    }
    while i < cs.len()
        invariant
            i <= cs.len(),
            !has_current ==> current@.len() == 0,
            argv(exec@, ctx@) == texts(argv_out@) + argv_from(
                cs@.skip(i as int),
                gathered(current@, has_current),
                ctx@,
            ),
        decreases cs.len() - i,
    {
        let c: char = cs[i];
        let ghost here = cs@.skip(i as int);
        let ghost done = texts(argv_out@);
        let ghost cur = gathered(current@, has_current);
        proof {
            assert(here[0] == c);
            assert(here.skip(1) =~= cs@.skip(i + 1));
            if here.len() > 1 {
                assert(here[1] == cs@[i + 1]);
                assert(here.skip(2) =~= cs@.skip(i + 2));
            }
        }
        if is_space_char(c) {
            flush(&mut argv_out, &mut current, has_current);
            has_current = false;
            i = i + 1;
            proof {
                assert(done + (flushed(cur) + argv_from(here.skip(1), None, ctx@)) =~= texts(
                    argv_out@,
                ) + argv_from(here.skip(1), None, ctx@));
            }
        } else if c == '"' || c == '\'' {
            let ghost before = current@;
            i = take_quoted(&cs, i + 1, c, &mut current);
            proof {
                if !has_current {
                    assert(before + quoted_text(here.skip(1), c) =~= quoted_text(here.skip(1), c));
                }
            }
            has_current = true;
        } else if c == '%' {
            if cs.len() - i == 1 {
                i = i + 1;
                proof {
                    assert(cs@.skip(i as int).len() == 0);
                }
            } else {
                let code: char = cs[i + 1];
                i = i + 2;
                if code == '%' {
                    let ghost before = current@;
                    current.push('%');
                    proof {
                        assert(current@ =~= before + seq!['%']);
                        if !has_current {
                            assert(current@ =~= seq!['%']);
                        }
                    }
                    has_current = true;
                } else if code == 'i' || code == 'c' || code == 'k' {
                    flush(&mut argv_out, &mut current, has_current);
                    has_current = false;
                    let ghost mid = texts(argv_out@);
                    if code == 'i' {
                        if !ctx.icon.is_empty() {
                            let ghost before = argv_out@;
                            argv_out.push(copy("--icon"));
                            argv_out.push(copy(ctx.icon));
                            proof {
                                assert(texts(argv_out@) =~= mid + icon_args(ctx.icon@));
                            }
                        } else {
                            proof {
                                assert(texts(argv_out@) =~= mid + icon_args(ctx.icon@));
                            }
                        }
                        proof {
                            assert(done + (flushed(cur) + icon_args(ctx@.icon) + argv_from(
                                here.skip(2),
                                None,
                                ctx@,
                            )) =~= texts(argv_out@) + argv_from(here.skip(2), None, ctx@));
                        }
                    } else if code == 'c' {
                        push_if_any(&mut argv_out, ctx.name);
                        proof {
                            assert(done + (flushed(cur) + if_any(ctx@.name) + argv_from(
                                here.skip(2),
                                None,
                                ctx@,
                            )) =~= texts(argv_out@) + argv_from(here.skip(2), None, ctx@));
                        }
                    } else {
                        push_if_any(&mut argv_out, ctx.desktop_file);
                        proof {
                            assert(done + (flushed(cur) + if_any(ctx@.desktop_file) + argv_from(
                                here.skip(2),
                                None,
                                ctx@,
                            )) =~= texts(argv_out@) + argv_from(here.skip(2), None, ctx@));
                        }
                    }
                }
            }
        } else {
            let ghost before = current@;
            current.push(c);
            proof {
                assert(current@ =~= before + seq![c]);
                if !has_current {
                    assert(current@ =~= seq![c]);
                }
            }
            has_current = true;
            i = i + 1;
        }
    }
    flush(&mut argv_out, &mut current, has_current);
    argv_out
}

/// Split an `Exec` line into arguments, with every field code dropped.
pub fn parse_exec(exec: &str) -> (r: Vec<String>)
    ensures
        texts(r@) == argv(exec@, no_context()),
{
    let ctx: ExecContext = ExecContext::default();
    proof {
        assert(ctx@.icon =~= no_context().icon);
        assert(ctx@.name =~= no_context().name);
        assert(ctx@.desktop_file =~= no_context().desktop_file);
    }
    parse_exec_with(exec, &ctx)
}

// ---------------------------------------------------------------------------
// Quoting
// ---------------------------------------------------------------------------

/// `a` with a backslash before each character that needs one.
pub open spec fn escaped(a: Seq<char>) -> Seq<char>
    decreases a.len(),
{
    if a.len() == 0 {
        a
    } else if escapable(a[0]) {
        seq!['\\', a[0]] + escaped(a.skip(1))
    } else {
        seq![a[0]] + escaped(a.skip(1))
    }
}

/// `a` in double quotes.
pub open spec fn quoted(a: Seq<char>) -> Seq<char> {
    seq!['"'] + escaped(a) + seq!['"']
}

/// Arguments in double quotes, with a space between them.
pub open spec fn quoted_line(args: Seq<Seq<char>>) -> Seq<char>
    decreases args.len(),
{
    if args.len() == 0 {
        Seq::empty()
    } else if args.len() == 1 {
        quoted(args[0])
    } else {
        quoted(args[0]) + seq![' '] + quoted_line(args.skip(1))
    }
}

proof fn lemma_quoted_reads_back(a: Seq<char>, tail: Seq<char>)
    ensures
        quoted_text(escaped(a) + seq!['"'] + tail, '"') == a,
        quoted_rest(escaped(a) + seq!['"'] + tail, '"') == tail,
    decreases a.len(),
{
    let s = escaped(a) + seq!['"'] + tail;
    if a.len() == 0 {
        assert(s =~= seq!['"'] + tail);
        assert(s.skip(1) =~= tail);
        assert(quoted_text(s, '"') =~= a);
    } else {
        let rest = a.skip(1);
        lemma_quoted_reads_back(rest, tail);
        if escapable(a[0]) {
            assert(s =~= seq!['\\', a[0]] + (escaped(rest) + seq!['"'] + tail));
            assert(s.skip(2) =~= escaped(rest) + seq!['"'] + tail);
            assert(at_escape(s, '"'));
            assert(quoted_text(s, '"') =~= seq![a[0]] + rest);
        } else {
            assert(s =~= seq![a[0]] + (escaped(rest) + seq!['"'] + tail));
            assert(s.skip(1) =~= escaped(rest) + seq!['"'] + tail);
            assert(!at_escape(s, '"'));
            assert(quoted_text(s, '"') =~= seq![a[0]] + rest);
        }
        assert(seq![a[0]] + rest =~= a);
    }
}

/// An argument that is quoted comes out as it went in, whatever it holds: white
/// space, quotes, field codes, or nothing at all.
pub proof fn law_quoted_argument_survives(a: Seq<char>, ctx: ContextView)
    ensures
        argv(quoted(a), ctx) == seq![a],
{
    lemma_quoted_reads_back(a, Seq::empty());
    let s = quoted(a);
    assert(s.skip(1) =~= escaped(a) + seq!['"'] + Seq::<char>::empty());
    assert(argv(s, ctx) == argv_from(Seq::empty(), Some(a), ctx));
}

/// A whole command line that is quoted argument by argument is split into just
/// those arguments.
pub proof fn law_quoted_line_reads_back(args: Seq<Seq<char>>, ctx: ContextView)
    ensures
        argv(quoted_line(args), ctx) == args,
    decreases args.len(),
{
    if args.len() == 0 {
        assert(argv(quoted_line(args), ctx) =~= args);
    } else if args.len() == 1 {
        law_quoted_argument_survives(args[0], ctx);
        assert(args =~= seq![args[0]]);
    } else {
        let rest = args.skip(1);
        law_quoted_line_reads_back(rest, ctx);
        let tail = seq![' '] + quoted_line(rest);
        lemma_quoted_reads_back(args[0], tail);
        let s = quoted_line(args);
        assert(s.skip(1) =~= escaped(args[0]) + seq!['"'] + tail);
        assert(s[0] == '"');
        assert(argv(s, ctx) == argv_from(tail, Some(args[0]), ctx));
        assert(tail[0] == ' ');
        assert(tail.skip(1) =~= quoted_line(rest));
        assert(argv_from(tail, Some(args[0]), ctx) == seq![args[0]] + argv(quoted_line(rest), ctx));
        assert(seq![args[0]] + rest =~= args);
    }
}

// ---------------------------------------------------------------------------
// Parts of a line
// ---------------------------------------------------------------------------

/// Whether a text holds neither white space nor quotes nor percent signs.
pub open spec fn is_plain(w: Seq<char>) -> bool {
    forall|k: int|
        0 <= k < w.len() ==> !is_space(#[trigger] w[k]) && w[k] != '"' && w[k] != '\'' && w[k] != '%'
}

/// Plain text is gathered into the argument that it touches.
proof fn lemma_plain_is_gathered(w: Seq<char>, t: Seq<char>, cur: Option<Seq<char>>, ctx: ContextView)
    requires
        is_plain(w),
        w.len() > 0,
    ensures
        argv_from(w + t, cur, ctx) == argv_from(t, grown(cur, w), ctx),
    decreases w.len(),
{
    let s = w + t;
    assert(s[0] == w[0]);
    assert(s.skip(1) =~= w.skip(1) + t);
    let one = grown(cur, seq![w[0]]);
    if w.len() == 1 {
        assert(w.skip(1) + t =~= t);
        assert(w =~= seq![w[0]]);
    } else {
        let rest = w.skip(1);
        assert forall|k: int| 0 <= k < rest.len() implies !is_space(#[trigger] rest[k]) && rest[k]
            != '"' && rest[k] != '\'' && rest[k] != '%' by {
            assert(rest[k] == w[k + 1]);
        }
        lemma_plain_is_gathered(rest, t, one, ctx);
        assert(seq![w[0]] + rest =~= w);
        match cur {
            Some(a) => {
                assert(a + seq![w[0]] + rest =~= a + w);
            },
            None => {},
        }
    }
}

/// What is quoted is gathered into the argument that it touches.
proof fn lemma_quoted_is_gathered(
    a: Seq<char>,
    t: Seq<char>,
    cur: Option<Seq<char>>,
    ctx: ContextView,
)
    ensures
        argv_from(quoted(a) + t, cur, ctx) == argv_from(t, grown(cur, a), ctx),
{
    let s = quoted(a) + t;
    lemma_quoted_reads_back(a, t);
    assert(s[0] == '"');
    assert(s.skip(1) =~= escaped(a) + seq!['"'] + t);
}

/// Parts of a line that touch form one argument, whichever of them are quoted:
/// plain text before, behind and between quotes is not cut off from what is quoted.
pub proof fn law_touching_parts_form_one_argument(
    w: Seq<char>,
    a: Seq<char>,
    b: Seq<char>,
    ctx: ContextView,
)
    requires
        is_plain(w),
        w.len() > 0,
    ensures
        argv(w + quoted(a), ctx) == seq![w + a],
        argv(quoted(a) + w, ctx) == seq![a + w],
        argv(quoted(a) + quoted(b), ctx) == seq![a + b],
        argv(w + quoted(a) + w, ctx) == seq![w + a + w],
{
    let none = Seq::<char>::empty();
    lemma_plain_is_gathered(w, quoted(a), None, ctx);
    lemma_quoted_is_gathered(a, none, Some(w), ctx);
    assert(quoted(a) + none =~= quoted(a));
    lemma_quoted_is_gathered(a, w, None, ctx);
    lemma_plain_is_gathered(w, none, Some(a), ctx);
    assert(w + none =~= w);
    lemma_quoted_is_gathered(a, quoted(b), None, ctx);
    lemma_quoted_is_gathered(b, none, Some(a), ctx);
    assert(quoted(b) + none =~= quoted(b));
    assert(w + quoted(a) + w =~= w + (quoted(a) + w));
    lemma_plain_is_gathered(w, quoted(a) + w, None, ctx);
    lemma_quoted_is_gathered(a, w, Some(w), ctx);
    lemma_plain_is_gathered(w, none, Some(w + a), ctx);
}

/// A line without quotes and percent signs is split into its words, and nothing
/// else.
pub proof fn law_plain_line_is_split_into_words(line: Seq<char>, ctx: ContextView)
    requires
        !line.contains('"') && !line.contains('\'') && !line.contains('%'),
    ensures
        argv(line, ctx) == words(line),
{
    lemma_plain_words(line, Seq::empty(), ctx);
}

proof fn lemma_plain_words(s: Seq<char>, cur: Seq<char>, ctx: ContextView)
    requires
        !s.contains('"') && !s.contains('\'') && !s.contains('%'),
    ensures
        argv_from(
            s,
            if cur.len() == 0 {
                None
            } else {
                Some(cur)
            },
            ctx,
        ) == words_from(s, cur),
    decreases s.len(),
{
    if s.len() > 0 {
        let rest = s.skip(1);
        assert(s.contains(s[0]));
        assert forall|c: char| rest.contains(c) implies s.contains(c) by {
            let k = choose|k: int| 0 <= k < rest.len() && rest[k] == c;
            assert(s[k + 1] == c);
        }
        if is_space(s[0]) {
            lemma_plain_words(rest, Seq::empty(), ctx);
            let none = Seq::<Seq<char>>::empty();
            assert(none + words_from(rest, Seq::empty()) =~= words_from(rest, Seq::empty()));
            if cur.len() == 0 {
                assert(cur =~= Seq::<char>::empty());
            }
        } else {
            lemma_plain_words(rest, cur.push(s[0]), ctx);
            if cur.len() == 0 {
                assert(cur.push(s[0]) =~= seq![s[0]]);
            } else {
                assert(cur.push(s[0]) =~= cur + seq![s[0]]);
            }
        }
    }
}

/// A word that a space follows is an argument of its own, and what follows is read
/// as a line by itself.
pub proof fn law_space_ends_an_argument(w: Seq<char>, rest: Seq<char>, ctx: ContextView)
    requires
        is_plain(w),
        w.len() > 0,
    ensures
        argv(w + seq![' '] + rest, ctx) == seq![w] + argv(rest, ctx),
        argv(seq![' '] + rest, ctx) == argv(rest, ctx),
{
    let t = seq![' '] + rest;
    lemma_plain_is_gathered(w, t, None, ctx);
    assert(w + seq![' '] + rest =~= w + t);
    assert(t[0] == ' ');
    assert(t.skip(1) =~= rest);
    assert(Seq::<Seq<char>>::empty() + argv(rest, ctx) =~= argv(rest, ctx));
}

/// Between single quotes everything is literal.
pub proof fn law_single_quotes_are_literal(a: Seq<char>, ctx: ContextView)
    requires
        !a.contains('\''),
    ensures
        argv(seq!['\''] + a + seq!['\''], ctx) == seq![a],
{
    let s = seq!['\''] + a + seq!['\''];
    lemma_single_quoted(a, Seq::empty());
    assert(s[0] == '\'');
    assert(s.skip(1) =~= a + seq!['\''] + Seq::<char>::empty());
    assert(argv(s, ctx) == argv_from(Seq::empty(), Some(a), ctx));
}

proof fn lemma_single_quoted(a: Seq<char>, tail: Seq<char>)
    requires
        !a.contains('\''),
    ensures
        quoted_text(a + seq!['\''] + tail, '\'') == a,
        quoted_rest(a + seq!['\''] + tail, '\'') == tail,
    decreases a.len(),
{
    let s = a + seq!['\''] + tail;
    if a.len() == 0 {
        assert(s.skip(1) =~= tail);
        assert(quoted_text(s, '\'') =~= a);
    } else {
        let rest = a.skip(1);
        assert(a.contains(a[0]));
        assert(!rest.contains('\'')) by {
            if rest.contains('\'') {
                let k = choose|k: int| 0 <= k < rest.len() && rest[k] == '\'';
                assert(a[k + 1] == '\'');
            }
        }
        lemma_single_quoted(rest, tail);
        assert(s.skip(1) =~= rest + seq!['\''] + tail);
        assert(seq![a[0]] + rest =~= a);
    }
}

/// A field code that carries no content vanishes, two percent signs are one, and
/// those that carry content become arguments of their own, whatever they hold: the
/// icon behind its option, the name, and the file. Without content they vanish too.
pub proof fn law_field_codes_are_expanded(c: char, rest: Seq<char>, ctx: ContextView)
    ensures
        c != '%' && c != 'i' && c != 'c' && c != 'k' ==> argv(seq!['%', c] + rest, ctx) == argv(
            rest,
            ctx,
        ),
        ctx.icon.len() > 0 ==> argv(seq!['%', 'i'] + rest, ctx) == seq!["--icon"@, ctx.icon] + argv(
            rest,
            ctx,
        ),
        ctx.icon.len() == 0 ==> argv(seq!['%', 'i'] + rest, ctx) == argv(rest, ctx),
        ctx.name.len() > 0 ==> argv(seq!['%', 'c'] + rest, ctx) == seq![ctx.name] + argv(rest, ctx),
        ctx.name.len() == 0 ==> argv(seq!['%', 'c'] + rest, ctx) == argv(rest, ctx),
        ctx.desktop_file.len() > 0 ==> argv(seq!['%', 'k'] + rest, ctx) == seq![ctx.desktop_file]
            + argv(rest, ctx),
        ctx.desktop_file.len() == 0 ==> argv(seq!['%', 'k'] + rest, ctx) == argv(rest, ctx),
{
    let none = Seq::<Seq<char>>::empty();
    assert((seq!['%', c] + rest).skip(2) =~= rest);
    assert((seq!['%', 'i'] + rest).skip(2) =~= rest);
    assert((seq!['%', 'c'] + rest).skip(2) =~= rest);
    assert((seq!['%', 'k'] + rest).skip(2) =~= rest);
    let after = argv_from(rest, None, ctx);
    assert(none + none + after =~= after);
    assert(none + seq!["--icon"@, ctx.icon] + after =~= seq!["--icon"@, ctx.icon] + after);
    assert(none + seq![ctx.name] + after =~= seq![ctx.name] + after);
    assert(none + seq![ctx.desktop_file] + after =~= seq![ctx.desktop_file] + after);
}

/// Two percent signs within a word are one, and a field code within a word leaves
/// the rest of the word together.
pub proof fn law_percent_within_a_word(a: Seq<char>, b: Seq<char>, c: char, ctx: ContextView)
    requires
        is_plain(a) && a.len() > 0,
        is_plain(b) && b.len() > 0,
        c != '%' && c != 'i' && c != 'c' && c != 'k',
    ensures
        argv(a + seq!['%', '%'] + b, ctx) == seq![a + seq!['%'] + b],
        argv(a + seq!['%', c] + b, ctx) == seq![a + b],
{
    let none = Seq::<char>::empty();
    let two = seq!['%', '%'] + b;
    assert(a + seq!['%', '%'] + b =~= a + two);
    lemma_plain_is_gathered(a, two, None, ctx);
    assert(two.skip(2) =~= b);
    lemma_plain_is_gathered(b, none, Some(a + seq!['%']), ctx);
    assert(b + none =~= b);
    let code = seq!['%', c] + b;
    assert(a + seq!['%', c] + b =~= a + code);
    lemma_plain_is_gathered(a, code, None, ctx);
    assert(code.skip(2) =~= b);
    lemma_plain_is_gathered(b, none, Some(a), ctx);
}

/// A quote that is never closed reaches to the end of the line.
pub proof fn law_open_quote_reaches_to_the_end(a: Seq<char>, ctx: ContextView)
    requires
        !a.contains('"') && !a.contains('\\'),
    ensures
        argv(seq!['"'] + a, ctx) == seq![a],
{
    let s = seq!['"'] + a;
    lemma_open_quote(a);
    assert(s.skip(1) =~= a);
    assert(s[0] == '"');
    assert(argv(s, ctx) == argv_from(quoted_rest(a, '"'), Some(a), ctx));
}

proof fn lemma_open_quote(a: Seq<char>)
    requires
        !a.contains('"') && !a.contains('\\'),
    ensures
        quoted_text(a, '"') == a,
        quoted_rest(a, '"').len() == 0,
    decreases a.len(),
{
    if a.len() > 0 {
        let rest = a.skip(1);
        assert(a.contains(a[0]));
        assert forall|c: char| rest.contains(c) implies a.contains(c) by {
            let k = choose|k: int| 0 <= k < rest.len() && rest[k] == c;
            assert(a[k + 1] == c);
        }
        lemma_open_quote(rest);
        assert(seq![a[0]] + rest =~= a);
    } else {
        assert(quoted_text(a, '"') =~= a);
    }
}

/// What [`parse_exec_with`] makes of a line that is written in one of the usual
/// ways: text that touches quoted text goes into one argument with it, a line that
/// was quoted argument by argument gives those arguments back, and a line without
/// quotes and percent signs is split into its words.
pub proof fn law_line_is_split_as_it_is_written(
    exec: &str,
    ctx: &ExecContext,
    r: Vec<String>,
    w: Seq<char>,
    a: Seq<char>,
    b: Seq<char>,
    args: Seq<Seq<char>>,
)
    requires
        call_ensures(parse_exec_with, (exec, ctx), r),
        is_plain(w),
        w.len() > 0,
    ensures
        exec@ == w + quoted(a) ==> texts(r@) == seq![w + a],
        exec@ == quoted(a) + w ==> texts(r@) == seq![a + w],
        exec@ == quoted(a) + quoted(b) ==> texts(r@) == seq![a + b],
        exec@ == w + quoted(a) + w ==> texts(r@) == seq![w + a + w],
        exec@ == quoted_line(args) ==> texts(r@) == args,
        !a.contains('\'') && exec@ == seq!['\''] + a + seq!['\''] ==> texts(r@) == seq![a],
        !exec@.contains('"') && !exec@.contains('\'') && !exec@.contains('%') ==> texts(r@) == words(
            exec@,
        ),
{
    law_touching_parts_form_one_argument(w, a, b, ctx@);
    law_quoted_line_reads_back(args, ctx@);
    if !a.contains('\'') {
        law_single_quotes_are_literal(a, ctx@);
    }
    if !exec@.contains('"') && !exec@.contains('\'') && !exec@.contains('%') {
        law_plain_line_is_split_into_words(exec@, ctx@);
    }
}

/// A field code in front of a line puts what it stands for in front of the
/// arguments, and nothing where that is empty or the code stands for nothing.
pub proof fn law_field_code_puts_its_value_in_front(
    rest: &str,
    exec: &str,
    ctx: &ExecContext,
    c: char,
    short: Vec<String>,
    long: Vec<String>,
)
    requires
        call_ensures(parse_exec_with, (rest, ctx), short),
        call_ensures(parse_exec_with, (exec, ctx), long),
        exec@ == seq!['%', c] + rest@,
        c != '%',
    ensures
        c == 'i' && ctx.icon@.len() > 0 ==> texts(long@) == seq!["--icon"@, ctx.icon@] + texts(short@),
        c == 'c' && ctx.name@.len() > 0 ==> texts(long@) == seq![ctx.name@] + texts(short@),
        c == 'k' && ctx.desktop_file@.len() > 0 ==> texts(long@) == seq![ctx.desktop_file@] + texts(
            short@,
        ),
        c == 'i' && ctx.icon@.len() == 0 ==> texts(long@) == texts(short@),
        c == 'c' && ctx.name@.len() == 0 ==> texts(long@) == texts(short@),
        c == 'k' && ctx.desktop_file@.len() == 0 ==> texts(long@) == texts(short@),
        c != 'i' && c != 'c' && c != 'k' ==> texts(long@) == texts(short@),
{
    law_field_codes_are_expanded(c, rest@, ctx@);
}

/// Without a context every field code is dropped, and lines are split as with one.
pub proof fn law_field_codes_are_dropped(
    rest: &str,
    exec: &str,
    c: char,
    short: Vec<String>,
    long: Vec<String>,
    args: Seq<Seq<char>>,
)
    requires
        call_ensures(parse_exec, (rest,), short),
        call_ensures(parse_exec, (exec,), long),
    ensures
        c != '%' && exec@ == seq!['%', c] + rest@ ==> texts(long@) == texts(short@),
        exec@ == quoted_line(args) ==> texts(long@) == args,
        !exec@.contains('"') && !exec@.contains('\'') && !exec@.contains('%') ==> texts(long@)
            == words(exec@),
{
    law_field_codes_are_expanded(c, rest@, no_context());
    law_quoted_line_reads_back(args, no_context());
    if !exec@.contains('"') && !exec@.contains('\'') && !exec@.contains('%') {
        law_plain_line_is_split_into_words(exec@, no_context());
    }
}

} // verus!
