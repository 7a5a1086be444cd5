//! The per-line grammar: a hash-directive line expands to a LaTeX command or
//! opens an environment, an item-directive line expands to `\item`, and
//! everything else passes through verbatim.

use crate::text::escape_percent;
use crate::text::escape_percent_chars;
use crate::text::chars_to_string;
use crate::text::leading_spaces;
use crate::text::leading_space_len;
use crate::text::lemma_escape_percent_len;
use crate::text::lemma_prefix_len_props;
use crate::text::space_pred;
use crate::text::spaces;
use crate::text::str_to_chars;
use crate::text::subvec_chars;
use crate::text::trim_chars;
use crate::text::trim_spec;
use crate::text::append_spaces;
use vstd::prelude::*;
use vstd::string::StrSliceExecFns;
use vstd::string::StringExecFns;

verus! {

/// A LaTeX environment opened by a hash-directive line with empty `args`.
#[derive(Debug, PartialEq)]
pub struct Environment {
    /// Number of leading space characters of the opening line.
    pub indent_depth: usize,
    /// Environment name, decoded and trimmed.
    pub name: String,
    /// Option text, decoded, trimmed, with `%` re-encoded as `\%`.
    pub opts: String,
    /// Trailing comment, trimmed.
    pub comment: String,
    /// Whether the name is exactly `itemize`, `enumerate` or `description`.
    pub is_list_like: bool,
}

/// What one input line turns into, before stack bookkeeping.
#[derive(Debug, PartialEq)]
pub enum Hashline {
    /// The line opens an environment.
    OpenEnv(Environment),
    /// The line is already plain LaTeX.
    PlainLine(String),
}

/// Mathematical model of an [`Environment`].
#[verifier::ext_equal]
pub struct EnvData {
    pub indent_depth: nat,
    pub name: Seq<char>,
    pub opts: Seq<char>,
    pub comment: Seq<char>,
    pub is_list_like: bool,
}

/// Mathematical model of a [`Hashline`].
#[verifier::ext_equal]
pub enum HashlineData {
    OpenEnv(EnvData),
    PlainLine(Seq<char>),
}

impl View for Environment {
    type V = EnvData;

    open spec fn view(&self) -> EnvData {
        EnvData {
            indent_depth: self.indent_depth as nat,
            name: self.name@,
            opts: self.opts@,
            comment: self.comment@,
            is_list_like: self.is_list_like,
        }
    }
}

impl DeepView for Environment {
    type V = EnvData;

    open spec fn deep_view(&self) -> EnvData {
        self.view()
    }
}

impl View for Hashline {
    type V = HashlineData;

    open spec fn view(&self) -> HashlineData {
        match self {
            Hashline::OpenEnv(e) => HashlineData::OpenEnv(e@),
            Hashline::PlainLine(l) => HashlineData::PlainLine(l@),
        }
    }
}

impl DeepView for Hashline {
    type V = HashlineData;

    open spec fn deep_view(&self) -> HashlineData {
        self.view()
    }
}

/// The rendered `\begin` line of an environment.
pub open spec fn env_begin_text(e: EnvData) -> Seq<char> {
    spaces(e.indent_depth) + "\\begin{"@ + e.name + "}"@ + e.opts + (if e.comment.len() == 0 {
        Seq::<char>::empty()
    } else {
        " "@ + e.comment
    })
}

/// The rendered `\end` line of an environment.
pub open spec fn env_end_text(e: EnvData) -> Seq<char> {
    spaces(e.indent_depth) + "\\end{"@ + e.name + "}"@
}

impl Environment {
    /// Renders the opening tag, `\begin{name}opts comment`, indented.
    pub fn latex_begin(&self) -> (r: String)
        ensures
            r@ == env_begin_text(self@),
    {
        let mut out = String::new();
        append_spaces(&mut out, self.indent_depth);
        out.append("\\begin{");
        out.append(self.name.as_str());
        out.append("}");
        out.append(self.opts.as_str());
        if self.comment.as_str().unicode_len() > 0 {
            out.append(" ");
            out.append(self.comment.as_str());
        }
        proof {
            assert(out@ =~= env_begin_text(self@));
        }
        out
    }

    /// Renders the closing tag, `\end{name}`, indented.
    pub fn latex_end(&self) -> (r: String)
        ensures
            r@ == env_end_text(self@),
    {
        let mut out = String::new();
        append_spaces(&mut out, self.indent_depth);
        out.append("\\end{");
        out.append(self.name.as_str());
        out.append("}");
        proof {
            assert(out@ =~= env_end_text(self@));
        }
        out
    }

    /// Number of leading space characters of the opening line.
    pub fn indent_depth(&self) -> (d: usize)
        ensures
            d as nat == self@.indent_depth,
    {
        self.indent_depth
    }

    /// Whether the environment enables item-directive lines in its body.
    pub fn is_list_like(&self) -> (b: bool)
        ensures
            b == self@.is_list_like,
    {
        self.is_list_like
    }
}

/// Which part of a hash-directive line a scan is reading; each part has its
/// own escapable and terminating characters.
pub enum ScanMode {
    /// The environment or command name.
    Name,
    /// The option text between name and colon.
    Opts,
    /// The argument text after the colon.
    Args,
}

/// The characters that `\` escapes in part `m`.
pub open spec fn is_esc_for(m: ScanMode, c: char) -> bool {
    match m {
        ScanMode::Name => c == ':',
        ScanMode::Opts => c == ':' || c == '%',
        ScanMode::Args => c == '%',
    }
}

/// The characters that end part `m` when they appear unescaped.
pub open spec fn is_excl_for(m: ScanMode, c: char) -> bool {
    match m {
        ScanMode::Name => c == ':' || c == '%' || c == '(' || c == '[' || c == '{' || c == ' '
            || c == '\t',
        ScanMode::Opts => c == ':' || c == '%',
        ScanMode::Args => c == '%',
    }
}

/// Scans part `m` of `s` from position `i`: consumes characters until an
/// unescaped terminator, decoding `\x` to `x` for the escapable characters.
/// Returns the position after the consumed text and the decoded text.
/// A final lone `\` is left unconsumed.
pub open spec fn scan_esc(s: Seq<char>, i: int, m: ScanMode) -> (int, Seq<char>)
    decreases s.len() - i,
{
    if i < 0 || i >= s.len() {
        (i, Seq::<char>::empty())
    } else if s[i] == '\\' {
        if i + 1 >= s.len() {
            (i, Seq::<char>::empty())
        } else if is_esc_for(m, s[i + 1]) {
            let r = scan_esc(s, i + 2, m);
            (r.0, seq![s[i + 1]] + r.1)
        } else {
            let r = scan_esc(s, i + 1, m);
            (r.0, seq!['\\'] + r.1)
        }
    } else if is_excl_for(m, s[i]) {
        (i, Seq::<char>::empty())
    } else {
        let r = scan_esc(s, i + 1, m);
        (r.0, seq![s[i]] + r.1)
    }
}

/// Whether `c` is escapable in part `m`.
pub fn is_esc(m: &ScanMode, c: char) -> (b: bool)
    ensures
        b == is_esc_for(*m, c),
{
    match m {
        ScanMode::Name => c == ':',
        ScanMode::Opts => c == ':' || c == '%',
        ScanMode::Args => c == '%',
    }
}

/// Whether `c` ends part `m` when unescaped.
pub fn is_excl(m: &ScanMode, c: char) -> (b: bool)
    ensures
        b == is_excl_for(*m, c),
{
    match m {
        ScanMode::Name => c == ':' || c == '%' || c == '(' || c == '[' || c == '{' || c == ' '
            || c == '\t',
        ScanMode::Opts => c == ':' || c == '%',
        ScanMode::Args => c == '%',
    }
}

/// Scans part `m` of `s` from `start`, as [`scan_esc`] describes.
pub fn scan_part(s: &Vec<char>, start: usize, m: ScanMode) -> (r: (usize, Vec<char>))
    requires
        start <= s@.len(),
    ensures
        r.0 as int == scan_esc(s@, start as int, m).0,
        r.1@ == scan_esc(s@, start as int, m).1,
        start <= r.0 <= s@.len(),
{
    let mut i: usize = start;
    let mut out: Vec<char> = Vec::new();
    loop
        invariant
            start <= i <= s@.len(),
            scan_esc(s@, start as int, m).0 == scan_esc(s@, i as int, m).0,
            scan_esc(s@, start as int, m).1 == out@ + scan_esc(s@, i as int, m).1,
        ensures
            i as int == scan_esc(s@, start as int, m).0,
            out@ == scan_esc(s@, start as int, m).1,
            start <= i <= s@.len(),
        decreases s@.len() - i,
    {
        if i == s.len() {
            proof {
                assert(out@ + scan_esc(s@, i as int, m).1 =~= out@);
            }
            break ;
        }
        let c = s[i];
        if c == '\\' {
            if i + 1 == s.len() {
                proof {
                    assert(out@ + scan_esc(s@, i as int, m).1 =~= out@);
                }
                break ;
            }
            let d = s[i + 1];
            if is_esc(&m, d) {
                proof {
                    let rest = scan_esc(s@, i + 2, m).1;
                    assert(out@ + (seq![d] + rest) =~= (out@ + seq![d]) + rest);
                }
                out.push(d);
                i = i + 2;
            } else {
                proof {
                    let rest = scan_esc(s@, i + 1, m).1;
                    assert(out@ + (seq!['\\'] + rest) =~= (out@ + seq!['\\']) + rest);
                }
                out.push('\\');
                i = i + 1;
            }
        } else if is_excl(&m, c) {
            proof {
                assert(out@ + scan_esc(s@, i as int, m).1 =~= out@);
            }
            break ;
        } else {
            proof {
                let rest = scan_esc(s@, i + 1, m).1;
                assert(out@ + (seq![c] + rest) =~= (out@ + seq![c]) + rest);
            }
            out.push(c);
            i = i + 1;
        }
    }
    (i, out)
}

/// The decoded pieces of a hash-directive line.
#[verifier::ext_equal]
pub struct HashParts {
    pub ws: int,
    pub name: Seq<char>,
    pub opts: Seq<char>,
    pub args: Seq<char>,
    pub comment: Seq<char>,
}

/// Parses `s` as a hash-directive: an optional run of spaces, the literal
/// `"# "`, a non-empty name, options, a mandatory unescaped `:`, arguments
/// up to an unescaped `%` or the end, and the rest as comment.
/// `None` when the grammar fails.
pub open spec fn hashline_parse(s: Seq<char>) -> Option<HashParts> {
    let w = leading_space_len(s);
    if w + 1 < s.len() && s[w] == '#' && s[w + 1] == ' ' {
        let n = scan_esc(s, w + 2, ScanMode::Name);
        if n.1.len() == 0 {
            None
        } else {
            let o = scan_esc(s, n.0, ScanMode::Opts);
            if o.0 < s.len() && s[o.0] == ':' {
                let a = scan_esc(s, o.0 + 1, ScanMode::Args);
                Some(
                    HashParts {
                        ws: w,
                        name: n.1,
                        opts: o.1,
                        args: a.1,
                        comment: s.subrange(a.0, s.len() as int),
                    },
                )
            } else {
                None
            }
        }
    } else {
        None
    }
}

/// Whether a (trimmed, decoded) environment name enables item-directive
/// lines: it must be exactly `itemize`, `enumerate` or `description`.
pub open spec fn is_list_like_name(n: Seq<char>) -> bool {
    n == "itemize"@ || n == "enumerate"@ || n == "description"@
}

/// The rendered single-line command, `\name opts{args} comment`, indented.
/// The parts are already trimmed and re-escaped.
pub open spec fn command_text(
    ws: nat,
    name: Seq<char>,
    opts: Seq<char>,
    args: Seq<char>,
    comment: Seq<char>,
) -> Seq<char> {
    spaces(ws) + "\\"@ + name + opts + "{"@ + args + "}"@ + (if comment.len() == 0 {
        Seq::<char>::empty()
    } else {
        " "@ + comment
    })
}

/// What the decoded pieces of a hash-directive line turn into: an
/// environment when the trimmed arguments are empty, otherwise a
/// single-line command.
pub open spec fn hashline_helper_data(
    ws: nat,
    name: Seq<char>,
    opts: Seq<char>,
    args: Seq<char>,
    comment: Seq<char>,
) -> HashlineData {
    let name_t = trim_spec(name);
    let opts_t = escape_percent(trim_spec(opts));
    let args_t = escape_percent(trim_spec(args));
    let comment_t = trim_spec(comment);
    if trim_spec(args).len() == 0 {
        HashlineData::OpenEnv(
            EnvData {
                indent_depth: ws,
                name: name_t,
                opts: opts_t,
                comment: comment_t,
                is_list_like: is_list_like_name(name_t),
            },
        )
    } else {
        HashlineData::PlainLine(command_text(ws, name_t, opts_t, args_t, comment_t))
    }
}

/// What a whole line turns into under the hash-directive grammar, if it
/// matches.
pub open spec fn process_hashline_data(s: Seq<char>) -> Option<HashlineData> {
    match hashline_parse(s) {
        Some(p) => Some(hashline_helper_data(p.ws as nat, p.name, p.opts, p.args, p.comment)),
        None => None,
    }
}

/// Parses `s` as an item-directive: an optional run of spaces, then `*`;
/// the rest of the line is the item text. `None` when there is no `*`.
pub open spec fn itemline_parse(s: Seq<char>) -> Option<(int, Seq<char>)> {
    let w = leading_space_len(s);
    if w < s.len() && s[w] == '*' {
        Some((w, s.subrange(w + 1, s.len() as int)))
    } else {
        None
    }
}

/// The rendered item line: the leading whitespace kept verbatim, `\item`,
/// and the trimmed item text when there is one.
pub open spec fn itemline_text(ws: Seq<char>, item: Seq<char>) -> Seq<char> {
    ws + "\\item"@ + (if trim_spec(item).len() == 0 {
        Seq::<char>::empty()
    } else {
        " "@ + trim_spec(item)
    })
}

/// What a whole line turns into under the item-directive grammar, if it
/// matches.
pub open spec fn process_itemline_data(s: Seq<char>) -> Option<HashlineData> {
    match itemline_parse(s) {
        Some(p) => Some(HashlineData::PlainLine(itemline_text(spaces(p.0 as nat), p.1))),
        None => None,
    }
}

/// What one line turns into: the hash-directive grammar is tried first, the
/// item-directive grammar only when a list-like environment is active, and
/// everything else passes through verbatim.
pub open spec fn process_line_data(s: Seq<char>, list_like_active: bool) -> HashlineData {
    match process_hashline_data(s) {
        Some(h) => h,
        None => if list_like_active {
            match process_itemline_data(s) {
                Some(h) => h,
                None => HashlineData::PlainLine(s),
            }
        } else {
            HashlineData::PlainLine(s)
        },
    }
}

proof fn lemma_args_round_trip_from(s: Seq<char>, i: int)
    requires
        0 <= i <= s.len(),
        scan_esc(s, i, ScanMode::Args).0 == s.len(),
    ensures
        escape_percent(scan_esc(s, i, ScanMode::Args).1) == s.subrange(i, s.len() as int),
    decreases s.len() - i,
{
    let m = ScanMode::Args;
    if i == s.len() {
        assert(s.subrange(i, s.len() as int) =~= Seq::<char>::empty());
    } else if s[i] == '\\' {
        if i + 1 >= s.len() {
            assert(scan_esc(s, i, m).0 == i);
        } else if is_esc_for(m, s[i + 1]) {
            lemma_args_round_trip_from(s, i + 2);
            let rest = scan_esc(s, i + 2, m).1;
            assert((seq![s[i + 1]] + rest)[0] == '%');
            assert((seq![s[i + 1]] + rest).drop_first() =~= rest);
            assert(escape_percent(seq![s[i + 1]] + rest) == seq!['\\', '%'] + escape_percent(rest));
            assert(seq!['\\', '%'] + s.subrange(i + 2, s.len() as int) =~= s.subrange(
                i,
                s.len() as int,
            ));
        } else {
            lemma_args_round_trip_from(s, i + 1);
            let rest = scan_esc(s, i + 1, m).1;
            assert((seq!['\\'] + rest)[0] == '\\');
            assert((seq!['\\'] + rest).drop_first() =~= rest);
            assert(escape_percent(seq!['\\'] + rest) == seq!['\\'] + escape_percent(rest));
            assert(seq!['\\'] + s.subrange(i + 1, s.len() as int) =~= s.subrange(
                i,
                s.len() as int,
            ));
        }
    } else if is_excl_for(m, s[i]) {
        assert(scan_esc(s, i, m).0 == i);
    } else {
        lemma_args_round_trip_from(s, i + 1);
        let rest = scan_esc(s, i + 1, m).1;
        assert((seq![s[i]] + rest)[0] == s[i]);
        assert((seq![s[i]] + rest).drop_first() =~= rest);
        assert(escape_percent(seq![s[i]] + rest) == seq![s[i]] + escape_percent(rest));
        assert(seq![s[i]] + s.subrange(i + 1, s.len() as int) =~= s.subrange(i, s.len() as int));
    }
}

/// Law: escape decoding and re-encoding round-trip on the argument part.
/// When the argument scanner consumes `s` completely (so every `%` in `s`
/// stands escaped as `\%`), re-escaping the decoded text reproduces `s`
/// exactly; in particular every `\%` comes back as `\%`.
pub proof fn lemma_args_escape_round_trip(s: Seq<char>)
    requires
        scan_esc(s, 0, ScanMode::Args).0 == s.len(),
    ensures
        escape_percent(scan_esc(s, 0, ScanMode::Args).1) == s,
{
    lemma_args_round_trip_from(s, 0);
    assert(s.subrange(0, s.len() as int) =~= s);
}

proof fn lemma_opts_round_trip_from(s: Seq<char>, i: int)
    requires
        0 <= i <= s.len(),
        scan_esc(s, i, ScanMode::Opts).0 == s.len(),
        forall|j: int| #![trigger s[j]] i <= j < s.len() - 1 ==> !(s[j] == '\\' && s[j + 1] == ':'),
    ensures
        escape_percent(scan_esc(s, i, ScanMode::Opts).1) == s.subrange(i, s.len() as int),
    decreases s.len() - i,
{
    let m = ScanMode::Opts;
    if i == s.len() {
        assert(s.subrange(i, s.len() as int) =~= Seq::<char>::empty());
    } else if s[i] == '\\' {
        if i + 1 >= s.len() {
            assert(scan_esc(s, i, m).0 == i);
        } else if is_esc_for(m, s[i + 1]) {
            assert(s[i + 1] != ':');
            assert(s[i + 1] == '%');
            lemma_opts_round_trip_from(s, i + 2);
            let rest = scan_esc(s, i + 2, m).1;
            assert((seq![s[i + 1]] + rest)[0] == '%');
            assert((seq![s[i + 1]] + rest).drop_first() =~= rest);
            assert(escape_percent(seq![s[i + 1]] + rest) == seq!['\\', '%'] + escape_percent(rest));
            assert(seq!['\\', '%'] + s.subrange(i + 2, s.len() as int) =~= s.subrange(
                i,
                s.len() as int,
            ));
        } else {
            lemma_opts_round_trip_from(s, i + 1);
            let rest = scan_esc(s, i + 1, m).1;
            assert((seq!['\\'] + rest)[0] == '\\');
            assert((seq!['\\'] + rest).drop_first() =~= rest);
            assert(escape_percent(seq!['\\'] + rest) == seq!['\\'] + escape_percent(rest));
            assert(seq!['\\'] + s.subrange(i + 1, s.len() as int) =~= s.subrange(
                i,
                s.len() as int,
            ));
        }
    } else if is_excl_for(m, s[i]) {
        assert(scan_esc(s, i, m).0 == i);
    } else {
        lemma_opts_round_trip_from(s, i + 1);
        let rest = scan_esc(s, i + 1, m).1;
        assert((seq![s[i]] + rest)[0] == s[i]);
        assert((seq![s[i]] + rest).drop_first() =~= rest);
        assert(escape_percent(seq![s[i]] + rest) == seq![s[i]] + escape_percent(rest));
        assert(seq![s[i]] + s.subrange(i + 1, s.len() as int) =~= s.subrange(i, s.len() as int));
    }
}

/// Law: escape decoding and re-encoding round-trip on the option part,
/// provided no escaped colon occurs. When the option scanner consumes `s`
/// completely and `s` holds no `\:`, re-escaping the decoded text
/// reproduces `s` exactly. An input holding `\:` is the exception: it
/// decodes to `:`, which re-encoding leaves as a bare `:`.
pub proof fn lemma_opts_escape_round_trip(s: Seq<char>)
    requires
        scan_esc(s, 0, ScanMode::Opts).0 == s.len(),
        forall|j: int| #![trigger s[j]] 0 <= j < s.len() - 1 ==> !(s[j] == '\\' && s[j + 1] == ':'),
    ensures
        escape_percent(scan_esc(s, 0, ScanMode::Opts).1) == s,
{
    lemma_opts_round_trip_from(s, 0);
    assert(s.subrange(0, s.len() as int) =~= s);
}

/// Whether `name` is exactly one of the three list-like environment names.
fn is_list_like_string(name: &String) -> (b: bool)
    ensures
        b == is_list_like_name(name@),
{
    let itemize = "itemize".to_owned();
    let enumerate = "enumerate".to_owned();
    let description = "description".to_owned();
    *name == itemize || *name == enumerate || *name == description
}

/// Builds the result of a hash-directive line from its decoded pieces:
/// trims them, re-escapes `%`, and decides between an environment open and
/// a single-line command.
pub fn hashline_helper(
    ws: usize,
    name: &Vec<char>,
    opts: &Vec<char>,
    args: &Vec<char>,
    comment: &Vec<char>,
) -> (r: Hashline)
    ensures
        r@ == hashline_helper_data(ws as nat, name@, opts@, args@, comment@),
{
    let name_t = trim_chars(name);
    let opts_tv = trim_chars(opts);
    let opts_t = escape_percent_chars(&opts_tv);
    let args_tv = trim_chars(args);
    let args_t = escape_percent_chars(&args_tv);
    let comment_t = trim_chars(comment);
    proof {
        lemma_escape_percent_len(trim_spec(args@));
    }
    if args_t.len() == 0 {
        let name_s = chars_to_string(&name_t);
        let list_like = is_list_like_string(&name_s);
        Hashline::OpenEnv(
            Environment {
                indent_depth: ws,
                name: name_s,
                opts: chars_to_string(&opts_t),
                comment: chars_to_string(&comment_t),
                is_list_like: list_like,
            },
        )
    } else {
        let mut out = String::new();
        append_spaces(&mut out, ws);
        out.append("\\");
        out.append(chars_to_string(&name_t).as_str());
        out.append(chars_to_string(&opts_t).as_str());
        out.append("{");
        out.append(chars_to_string(&args_t).as_str());
        out.append("}");
        if comment_t.len() > 0 {
            out.append(" ");
            out.append(chars_to_string(&comment_t).as_str());
        }
        proof {
            assert(out@ =~= command_text(
                ws as nat,
                trim_spec(name@),
                escape_percent(trim_spec(opts@)),
                escape_percent(trim_spec(args@)),
                trim_spec(comment@),
            ));
        }
        Hashline::PlainLine(out)
    }
}

/// Builds the result of an item-directive line: the leading whitespace as
/// it stood, `\item`, and the trimmed item text.
pub fn itemline_helper(ws: &str, item: &str) -> (r: Hashline)
    ensures
        r@ == HashlineData::PlainLine(itemline_text(ws@, item@)),
{
    let mut out = String::new();
    out.append(ws);
    out.append("\\item");
    let item_chars = str_to_chars(item);
    let item_t = trim_chars(&item_chars);
    if item_t.len() > 0 {
        out.append(" ");
        out.append(chars_to_string(&item_t).as_str());
    }
    proof {
        assert(out@ =~= itemline_text(ws@, item@));
    }
    Hashline::PlainLine(out)
}

/// Tries the hash-directive grammar on `line`.
pub fn process_hashline(line: &str) -> (r: Option<Hashline>)
    ensures
        r.deep_view() == process_hashline_data(line@),
{
    let chars = str_to_chars(line);
    let n = chars.len();
    let w = leading_spaces(&chars);
    if w < n && w + 1 < n && chars[w] == '#' && chars[w + 1] == ' ' {
        let (i1, name) = scan_part(&chars, w + 2, ScanMode::Name);
        if name.len() == 0 {
            None
        } else {
            let (i2, opts) = scan_part(&chars, i1, ScanMode::Opts);
            if i2 < n && chars[i2] == ':' {
                let (i3, args) = scan_part(&chars, i2 + 1, ScanMode::Args);
                let comment = subvec_chars(&chars, i3, n);
                Some(hashline_helper(w, &name, &opts, &args, &comment))
            } else {
                None
            }
        }
    } else {
        None
    }
}

/// Tries the item-directive grammar on `line`.
pub fn process_itemline(line: &str) -> (r: Option<Hashline>)
    ensures
        r.deep_view() == process_itemline_data(line@),
{
    let chars = str_to_chars(line);
    let n = chars.len();
    let w = leading_spaces(&chars);
    if w < n && chars[w] == '*' {
        let ws_str = line.substring_char(0, w);
        let item_str = line.substring_char(w + 1, n);
        proof {
            lemma_prefix_len_props(line@, space_pred());
            assert(ws_str@ =~= spaces(w as nat));
        }
        Some(itemline_helper(ws_str, item_str))
    } else {
        None
    }
}

/// Classifies one line: hash-directive first, item-directive when a
/// list-like environment is active, and verbatim passthrough otherwise.
/// Total: every line yields a result.
pub fn process_line(line: &str, list_like_active: bool) -> (r: Hashline)
    ensures
        r@ == process_line_data(line@, list_like_active),
{
    match process_hashline(line) {
        Some(r) => r,
        None => {
            if list_like_active {
                match process_itemline(line) {
                    Some(r) => r,
                    None => Hashline::PlainLine(line.to_owned()),
                }
            } else {
                Hashline::PlainLine(line.to_owned())
            }
        },
    }
}

} // verus!
