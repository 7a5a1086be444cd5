//! Indentation scanning and the line-by-line transpiler driver: an explicit
//! stack of open environments, closed when the indentation that governs the
//! next line no longer exceeds theirs.

use crate::parsers::EnvData;
use crate::parsers::Environment;
use crate::parsers::Hashline;
use crate::parsers::HashlineData;
use crate::parsers::env_begin_text;
use crate::parsers::env_end_text;
use crate::parsers::process_line;
use crate::parsers::process_line_data;
use crate::text::leading_whitespace;
use crate::text::leading_ws_len;
use crate::text::is_ws_char;
use crate::text::lemma_trim_start_props;
use crate::text::str_to_chars;
use crate::text::trim_start_spec;
use vstd::prelude::*;
use vstd::string::StrSliceExecFns;
use vstd::string::StringExecFns;

verus! {

/// Output options of [`transpile`].
pub struct TranspileOptions {
    /// Strip the leading whitespace of every emitted line.
    pub flatten_output: bool,
    /// Prepend the fixed five-line comment banner to the output.
    pub prepend_do_not_edit_notice: bool,
}

/// The indentation depth in effect at position `i`: the indentation of
/// `lines[i]` when it is non-empty, otherwise that of the nearest non-empty
/// line below, and `0` past the end of input. Blank lines therefore never
/// close an environment.
pub open spec fn effective_indent(lines: Seq<Seq<char>>, i: int) -> int
    decreases lines.len() - i,
{
    if i < 0 || i >= lines.len() {
        0
    } else if lines[i].len() > 0 {
        leading_ws_len(lines[i])
    } else {
        effective_indent(lines, i + 1)
    }
}

/// One emitted output line: a plain line, a `\begin` tag, or an `\end` tag.
#[verifier::ext_equal]
pub enum TexEvent {
    Plain(Seq<char>),
    Begin(EnvData),
    End(EnvData),
}

/// The text of one emitted line, before flattening.
pub open spec fn event_text(e: TexEvent) -> Seq<char> {
    match e {
        TexEvent::Plain(l) => l,
        TexEvent::Begin(d) => env_begin_text(d),
        TexEvent::End(d) => env_end_text(d),
    }
}

/// Whether the innermost open environment is list-like.
pub open spec fn list_like_active(stack: Seq<EnvData>) -> bool {
    stack.len() > 0 && stack.last().is_list_like
}

/// The output line that one input line produces.
pub open spec fn line_event(l: Seq<char>, stack: Seq<EnvData>) -> TexEvent {
    match process_line_data(l, list_like_active(stack)) {
        HashlineData::PlainLine(t) => TexEvent::Plain(t),
        HashlineData::OpenEnv(e) => TexEvent::Begin(e),
    }
}

/// The stack after one input line: grown by one when the line opens an
/// environment.
pub open spec fn stack_after_line(l: Seq<char>, stack: Seq<EnvData>) -> Seq<EnvData> {
    match process_line_data(l, list_like_active(stack)) {
        HashlineData::PlainLine(_) => stack,
        HashlineData::OpenEnv(e) => stack.push(e),
    }
}

/// The `\end` lines emitted when the indentation in effect for the next
/// line is `t`: every environment whose depth is at least `t` closes, the
/// innermost first.
pub open spec fn close_events(stack: Seq<EnvData>, t: int) -> Seq<TexEvent>
    decreases stack.len(),
{
    if stack.len() > 0 && stack.last().indent_depth >= t {
        seq![TexEvent::End(stack.last())] + close_events(stack.drop_last(), t)
    } else {
        Seq::<TexEvent>::empty()
    }
}

/// The stack left after closing every environment of depth at least `t`.
pub open spec fn close_stack(stack: Seq<EnvData>, t: int) -> Seq<EnvData>
    decreases stack.len(),
{
    if stack.len() > 0 && stack.last().indent_depth >= t {
        close_stack(stack.drop_last(), t)
    } else {
        stack
    }
}

/// The stack of open environments after the first `i` lines.
pub open spec fn stack_upto(lines: Seq<Seq<char>>, i: int) -> Seq<EnvData>
    decreases i,
{
    if i <= 0 {
        Seq::<EnvData>::empty()
    } else {
        close_stack(
            stack_after_line(lines[i - 1], stack_upto(lines, i - 1)),
            effective_indent(lines, i),
        )
    }
}

/// The output lines emitted for the first `i` input lines.
pub open spec fn events_upto(lines: Seq<Seq<char>>, i: int) -> Seq<TexEvent>
    decreases i,
{
    if i <= 0 {
        Seq::<TexEvent>::empty()
    } else {
        events_upto(lines, i - 1) + seq![line_event(lines[i - 1], stack_upto(lines, i - 1))]
            + close_events(
            stack_after_line(lines[i - 1], stack_upto(lines, i - 1)),
            effective_indent(lines, i),
        )
    }
}

/// All output lines of a transpilation, in order.
pub open spec fn transpile_events(lines: Seq<Seq<char>>) -> Seq<TexEvent> {
    events_upto(lines, lines.len() as int)
}

/// One output line as written: flattening strips its leading whitespace.
pub open spec fn emitted(t: Seq<char>, flatten: bool) -> Seq<char> {
    if flatten {
        trim_start_spec(t)
    } else {
        t
    }
}

/// The output lines concatenated, each followed by one line separator.
pub open spec fn render_events(evs: Seq<TexEvent>, flatten: bool) -> Seq<char>
    decreases evs.len(),
{
    if evs.len() == 0 {
        Seq::<char>::empty()
    } else {
        emitted(event_text(evs[0]), flatten) + "\n"@ + render_events(evs.drop_first(), flatten)
    }
}

/// The fixed five-line comment banner.
pub open spec fn notice_text() -> Seq<char> {
    "% ============================================================== %\n"@
        + "%                                                                %\n"@
        + "% THIS IS AN AUTOGENERATED FILE. DO NOT EDIT THIS FILE DIRECTLY. %\n"@
        + "%                                                                %\n"@
        + "% ============================================================== %\n"@
}

/// The whole transpiled output.
pub open spec fn transpile_view(lines: Seq<Seq<char>>, flatten: bool, notice: bool) -> Seq<char> {
    (if notice {
        notice_text()
    } else {
        Seq::<char>::empty()
    }) + render_events(transpile_events(lines), flatten)
}

proof fn lemma_render_events_concat(a: Seq<TexEvent>, b: Seq<TexEvent>, flatten: bool)
    ensures
        render_events(a + b, flatten) == render_events(a, flatten) + render_events(b, flatten),
    decreases a.len(),
{
    if a.len() == 0 {
        assert(a + b =~= b);
        assert(render_events(a, flatten) + render_events(b, flatten) =~= render_events(b, flatten));
    } else {
        assert((a + b)[0] == a[0]);
        assert((a + b).drop_first() =~= a.drop_first() + b);
        lemma_render_events_concat(a.drop_first(), b, flatten);
        assert(emitted(event_text(a[0]), flatten) + "\n"@ + (render_events(a.drop_first(), flatten)
            + render_events(b, flatten)) =~= (emitted(event_text(a[0]), flatten) + "\n"@
            + render_events(a.drop_first(), flatten)) + render_events(b, flatten));
    }
}

/// Whether a sequence of output lines is well-nested when the environments
/// of `stack` are open: every `Begin` is closed by exactly one later `End`
/// of the same environment, inner environments close first, and at the end
/// every environment, those of `stack` included, has been closed.
pub open spec fn closes_from(evs: Seq<TexEvent>, stack: Seq<EnvData>) -> bool
    decreases evs.len(),
{
    if evs.len() == 0 {
        stack.len() == 0
    } else {
        match evs[0] {
            TexEvent::Plain(_) => closes_from(evs.drop_first(), stack),
            TexEvent::Begin(e) => closes_from(evs.drop_first(), stack.push(e)),
            TexEvent::End(e) => stack.len() > 0 && e == stack.last() && closes_from(
                evs.drop_first(),
                stack.drop_last(),
            ),
        }
    }
}

/// The output lines emitted from line `i` on, starting with `stack` open.
spec fn events_from(lines: Seq<Seq<char>>, i: int, stack: Seq<EnvData>) -> Seq<TexEvent>
    decreases lines.len() - i,
{
    if i < 0 || i >= lines.len() {
        Seq::<TexEvent>::empty()
    } else {
        let s1 = stack_after_line(lines[i], stack);
        let t = effective_indent(lines, i + 1);
        seq![line_event(lines[i], stack)] + close_events(s1, t) + events_from(
            lines,
            i + 1,
            close_stack(s1, t),
        )
    }
}

proof fn lemma_close_all(stack: Seq<EnvData>, t: int)
    requires
        t <= 0,
    ensures
        close_stack(stack, t).len() == 0,
    decreases stack.len(),
{
    if stack.len() > 0 {
        assert(stack.last().indent_depth >= t);
        lemma_close_all(stack.drop_last(), t);
    }
}

proof fn lemma_closes_from_close_events(stack: Seq<EnvData>, t: int, rest: Seq<TexEvent>)
    requires
        closes_from(rest, close_stack(stack, t)),
    ensures
        closes_from(close_events(stack, t) + rest, stack),
    decreases stack.len(),
{
    if stack.len() > 0 && stack.last().indent_depth >= t {
        lemma_closes_from_close_events(stack.drop_last(), t, rest);
        let inner = close_events(stack.drop_last(), t) + rest;
        let whole = close_events(stack, t) + rest;
        assert(whole =~= seq![TexEvent::End(stack.last())] + inner);
        assert(whole[0] == TexEvent::End(stack.last()));
        assert(whole.drop_first() =~= inner);
    } else {
        assert(close_events(stack, t) + rest =~= rest);
    }
}

proof fn lemma_events_split(lines: Seq<Seq<char>>, i: int)
    requires
        0 <= i <= lines.len(),
    ensures
        events_upto(lines, lines.len() as int) == events_upto(lines, i) + events_from(
            lines,
            i,
            stack_upto(lines, i),
        ),
    decreases lines.len() - i,
{
    if i == lines.len() {
        assert(events_upto(lines, i) + events_from(lines, i, stack_upto(lines, i)) =~= events_upto(
            lines,
            i,
        ));
    } else {
        lemma_events_split(lines, i + 1);
        let st = stack_upto(lines, i);
        let ev = seq![line_event(lines[i], st)];
        let s1 = stack_after_line(lines[i], st);
        let t = effective_indent(lines, i + 1);
        assert(stack_upto(lines, i + 1) == close_stack(s1, t));
        assert(events_upto(lines, i + 1) == events_upto(lines, i) + ev + close_events(s1, t));
        assert(events_upto(lines, i) + ev + close_events(s1, t) + events_from(
            lines,
            i + 1,
            close_stack(s1, t),
        ) =~= events_upto(lines, i) + events_from(lines, i, st));
    }
}

proof fn lemma_events_from_closes(lines: Seq<Seq<char>>, i: int, stack: Seq<EnvData>)
    requires
        0 <= i <= lines.len(),
        i == lines.len() ==> stack.len() == 0,
    ensures
        closes_from(events_from(lines, i, stack), stack),
    decreases lines.len() - i,
{
    if i < lines.len() {
        let ev = line_event(lines[i], stack);
        let s1 = stack_after_line(lines[i], stack);
        let t = effective_indent(lines, i + 1);
        let s2 = close_stack(s1, t);
        if i + 1 == lines.len() {
            assert(t == 0);
            lemma_close_all(s1, t);
        }
        lemma_events_from_closes(lines, i + 1, s2);
        lemma_closes_from_close_events(s1, t, events_from(lines, i + 1, s2));
        let tailevs = close_events(s1, t) + events_from(lines, i + 1, s2);
        let whole = events_from(lines, i, stack);
        assert(whole =~= seq![ev] + tailevs);
        assert(whole[0] == ev);
        assert(whole.drop_first() =~= tailevs);
        match ev {
            TexEvent::Plain(_) => {
                assert(s1 == stack);
            },
            TexEvent::Begin(e) => {
                assert(s1 == stack.push(e));
            },
            TexEvent::End(_) => {
                assert(false);
            },
        }
    }
}

/// Law: the output is structurally well-formed. For every input, the
/// `\begin` lines the transpiler emits are matched one-to-one by `\end`
/// lines of the same environments, in properly nested order: each
/// environment closes after everything opened inside it, and the final
/// appended indent of `0` guarantees that nothing stays open at the end.
pub proof fn lemma_transpile_balanced(lines: Seq<Seq<char>>)
    ensures
        closes_from(transpile_events(lines), Seq::<EnvData>::empty()),
{
    lemma_events_split(lines, 0);
    assert(events_upto(lines, 0) + events_from(lines, 0, stack_upto(lines, 0)) =~= events_from(
        lines,
        0,
        Seq::<EnvData>::empty(),
    ));
    lemma_events_from_closes(lines, 0, Seq::<EnvData>::empty());
}

/// Law: flatten mode emits exactly the same output lines in the same order
/// as non-flatten mode; the only difference is that each line loses
/// precisely its leading whitespace, so no emitted line starts with
/// whitespace.
pub proof fn lemma_flatten_output(lines: Seq<Seq<char>>, notice: bool)
    ensures
        transpile_view(lines, true, notice) == (if notice {
            notice_text()
        } else {
            Seq::<char>::empty()
        }) + render_events(transpile_events(lines), true),
        transpile_view(lines, false, notice) == (if notice {
            notice_text()
        } else {
            Seq::<char>::empty()
        }) + render_events(transpile_events(lines), false),
        forall|k: int|
            #![trigger transpile_events(lines)[k]]
            0 <= k < transpile_events(lines).len() ==> {
                let t = event_text(transpile_events(lines)[k]);
                emitted(t, false) == t && emitted(t, true) == t.subrange(
                    leading_ws_len(t),
                    t.len() as int,
                ) && (emitted(t, true).len() > 0 ==> !is_ws_char(emitted(t, true)[0]))
            },
{
    assert forall|k: int|
        #![trigger transpile_events(lines)[k]]
        0 <= k < transpile_events(lines).len() implies {
        let t = event_text(transpile_events(lines)[k]);
        emitted(t, false) == t && emitted(t, true) == t.subrange(
            leading_ws_len(t),
            t.len() as int,
        ) && (emitted(t, true).len() > 0 ==> !is_ws_char(emitted(t, true)[0]))
    } by {
        lemma_trim_start_props(event_text(transpile_events(lines)[k]));
    }
}

/// `None` for a truly empty line, otherwise the number of leading
/// whitespace characters, counted in codepoints. A line of nothing but
/// whitespace counts its whole length as indentation.
pub fn count_left_indent(line: &str) -> (r: Option<usize>)
    ensures
        r is Some <==> line@.len() > 0,
        r matches Some(k) ==> k as int == leading_ws_len(line@),
{
    if line.unicode_len() == 0 {
        None
    } else {
        let chars = str_to_chars(line);
        let k = leading_whitespace(&chars);
        Some(k)
    }
}

/// The indentation depth in effect before each line, propagated backward
/// across blank lines, with a final `0` appended: the result has one entry
/// more than the input, and its entry `i` governs whether environments
/// close before line `i` is emitted.
pub fn scan_indents(lines: &Vec<String>) -> (r: Vec<usize>)
    ensures
        r@.len() == lines@.len() + 1,
        forall|i: int|
            0 <= i <= lines@.len() ==> r@[i] as int == effective_indent(lines.deep_view(), i),
        r@[lines@.len() as int] == 0,
{
    let ghost gl: Seq<Seq<char>> = lines.deep_view();
    let n = lines.len();
    let mut rev: Vec<usize> = Vec::new();
    let mut last_indent: usize = 0;
    let mut i: usize = n;
    while i > 0
        invariant
            i <= n,
            n == lines@.len(),
            gl == lines.deep_view(),
            rev@.len() == n - i,
            forall|k: int| 0 <= k < rev@.len() ==> rev@[k] as int == effective_indent(gl, n - 1 - k),
            last_indent as int == effective_indent(gl, i as int),
        decreases i,
    {
        i = i - 1;
        proof {
            assert(gl[i as int] == lines@[i as int]@);
        }
        match count_left_indent(lines[i].as_str()) {
            None => {
                proof {
                    assert(effective_indent(gl, i as int) == effective_indent(gl, i as int + 1));
                }
            },
            Some(d) => {
                last_indent = d;
                proof {
                    assert(effective_indent(gl, i as int) == leading_ws_len(gl[i as int]));
                }
            },
        }
        rev.push(last_indent);
    }
    let cap = if n < usize::MAX {
        n + 1
    } else {
        n
    };
    let mut out: Vec<usize> = Vec::with_capacity(cap);
    let mut j: usize = 0;
    while j < n
        invariant
            j <= n,
            n == lines@.len(),
            gl == lines.deep_view(),
            rev@.len() == n,
            forall|k: int| 0 <= k < n ==> rev@[k] as int == effective_indent(gl, n - 1 - k),
            out@.len() == j,
            forall|k: int| 0 <= k < j ==> out@[k] as int == effective_indent(gl, k),
        decreases n - j,
    {
        out.push(rev[n - 1 - j]);
        j = j + 1;
    }
    out.push(0);
    out
}

/// Appends one output line to `out`: the fragment, flattened when asked,
/// then one line separator.
fn emit_line(out: &mut String, frag: &str, flatten: bool)
    ensures
        final(out)@ == old(out)@ + emitted(frag@, flatten) + "\n"@,
{
    if flatten {
        let chars = str_to_chars(frag);
        let k = leading_whitespace(&chars);
        let sub = frag.substring_char(k, chars.len());
        proof {
            lemma_trim_start_props(frag@);
        }
        out.append(sub);
    } else {
        out.append(frag);
    }
    out.append("\n");
}

/// Transpiles the whole line sequence: classifies each line, opens
/// environments on the stack, and closes every environment whose depth is
/// reached by the indentation governing the next line. The appended final
/// `0` of the indent sequence drains the stack, so every `\begin` gets its
/// `\end`.
#[verifier::rlimit(100)]
pub fn transpile(lines: &Vec<String>, options: &TranspileOptions) -> (r: String)
    ensures
        r@ == transpile_view(
            lines.deep_view(),
            options.flatten_output,
            options.prepend_do_not_edit_notice,
        ),
{
    let ghost gl: Seq<Seq<char>> = lines.deep_view();
    let flatten = options.flatten_output;
    let mut env_stack: Vec<Environment> = Vec::new();
    let mut transpiled = String::new();
    let adjusted_indents = scan_indents(lines);
    if options.prepend_do_not_edit_notice {
        transpiled.append("% ============================================================== %\n");
        transpiled.append("%                                                                %\n");
        transpiled.append("% THIS IS AN AUTOGENERATED FILE. DO NOT EDIT THIS FILE DIRECTLY. %\n");
        transpiled.append("%                                                                %\n");
        transpiled.append("% ============================================================== %\n");
    }
    let ghost prefix: Seq<char> = transpiled@;
    proof {
        if options.prepend_do_not_edit_notice {
            assert(prefix =~= notice_text());
        }
        assert(prefix + render_events(events_upto(gl, 0), flatten) =~= prefix);
    }
    let n = lines.len();
    let mut line_num: usize = 0;
    while line_num < n
        invariant
            line_num <= n,
            n == lines@.len(),
            gl == lines.deep_view(),
            adjusted_indents@.len() == n + 1,
            forall|i: int|
                0 <= i <= n ==> adjusted_indents@[i] as int == effective_indent(gl, i),
            env_stack.deep_view() == stack_upto(gl, line_num as int),
            transpiled@ == prefix + render_events(events_upto(gl, line_num as int), flatten),
            prefix == (if options.prepend_do_not_edit_notice {
                notice_text()
            } else {
                Seq::<char>::empty()
            }),
        decreases n - line_num,
    {
        let ghost stack0: Seq<EnvData> = env_stack.deep_view();
        let list_like_now = if env_stack.len() > 0 {
            env_stack[env_stack.len() - 1].is_list_like()
        } else {
            false
        };
        proof {
            if env_stack@.len() > 0 {
                assert(stack0.last() == env_stack@[env_stack@.len() - 1].deep_view());
            }
            assert(list_like_now == list_like_active(stack0));
            assert(gl[line_num as int] == lines@[line_num as int]@);
        }
        let ghost ev: TexEvent = line_event(gl[line_num as int], stack0);
        let tl: String = match process_line(lines[line_num].as_str(), list_like_now) {
            Hashline::PlainLine(l) => l,
            Hashline::OpenEnv(e) => {
                let tag_begin = e.latex_begin();
                env_stack.push(e);
                tag_begin
            },
        };
        proof {
            assert(env_stack.deep_view() =~= stack_after_line(gl[line_num as int], stack0));
            assert(tl@ == event_text(ev));
        }
        emit_line(&mut transpiled, tl.as_str(), flatten);
        let ghost s1: Seq<EnvData> = env_stack.deep_view();
        let ghost t: int = effective_indent(gl, line_num as int + 1);
        proof {
            let e0 = events_upto(gl, line_num as int) + seq![ev];
            lemma_render_events_concat(events_upto(gl, line_num as int), seq![ev], flatten);
            assert(seq![ev].drop_first() =~= Seq::<TexEvent>::empty());
            assert(render_events(Seq::<TexEvent>::empty(), flatten) == Seq::<char>::empty());
            assert(render_events(seq![ev], flatten) =~= emitted(event_text(ev), flatten) + "\n"@);
            assert(transpiled@ =~= prefix + render_events(e0, flatten));
            lemma_render_events_concat(e0, close_events(s1, t), flatten);
            assert(events_upto(gl, line_num as int + 1) =~= e0 + close_events(s1, t));
            assert(transpiled@ + render_events(close_events(env_stack.deep_view(), t), flatten)
                =~= prefix + render_events(events_upto(gl, line_num as int + 1), flatten));
        }
        while env_stack.len() > 0 && env_stack[env_stack.len() - 1].indent_depth
            >= adjusted_indents[line_num + 1]
            invariant
                n == lines@.len(),
                line_num < n,
                gl == lines.deep_view(),
                adjusted_indents@.len() == n + 1,
                forall|i: int|
                    0 <= i <= n ==> adjusted_indents@[i] as int == effective_indent(gl, i),
                t == effective_indent(gl, line_num as int + 1),
                stack_upto(gl, line_num as int + 1) == close_stack(env_stack.deep_view(), t),
                transpiled@ + render_events(close_events(env_stack.deep_view(), t), flatten)
                    == prefix + render_events(events_upto(gl, line_num as int + 1), flatten),
                prefix == (if options.prepend_do_not_edit_notice {
                    notice_text()
                } else {
                    Seq::<char>::empty()
                }),
            decreases env_stack.len(),
        {
            let ghost cur: Seq<EnvData> = env_stack.deep_view();
            proof {
                assert(cur.last() == env_stack@[env_stack@.len() - 1].deep_view());
                assert(cur.last().indent_depth >= t);
            }
            let e = match env_stack.pop() {
                Some(e) => e,
                None => unreached(),
            };
            let tag_end = e.latex_end();
            proof {
                assert(env_stack.deep_view() =~= cur.drop_last());
                assert(close_events(cur, t) =~= seq![TexEvent::End(cur.last())] + close_events(
                    cur.drop_last(),
                    t,
                ));
            }
            emit_line(&mut transpiled, tag_end.as_str(), flatten);
            proof {
                let rest = close_events(cur.drop_last(), t);
                assert(render_events(seq![TexEvent::End(cur.last())] + rest, flatten)
                    =~= emitted(env_end_text(cur.last()), flatten) + "\n"@ + render_events(
                    rest,
                    flatten,
                )) by {
                    lemma_render_events_concat(seq![TexEvent::End(cur.last())], rest, flatten);
                    assert(seq![TexEvent::End(cur.last())].drop_first() =~= Seq::<TexEvent>::empty());
                    assert(render_events(Seq::<TexEvent>::empty(), flatten) == Seq::<char>::empty());
                    assert(render_events(seq![TexEvent::End(cur.last())], flatten)
                        =~= emitted(env_end_text(cur.last()), flatten) + "\n"@);
                }
                assert(transpiled@ + render_events(close_events(env_stack.deep_view(), t), flatten)
                    =~= prefix + render_events(events_upto(gl, line_num as int + 1), flatten));
            }
        }
        proof {
            assert(render_events(close_events(env_stack.deep_view(), t), flatten)
                =~= Seq::<char>::empty());
            assert(transpiled@ =~= prefix + render_events(
                events_upto(gl, line_num as int + 1),
                flatten,
            ));
            assert(env_stack.deep_view() == stack_upto(gl, line_num as int + 1));
        }
        line_num = line_num + 1;
    }
    proof {
        assert(transpiled@ =~= transpile_view(
            gl,
            flatten,
            options.prepend_do_not_edit_notice,
        ));
    }
    transpiled
}

} // verus!
