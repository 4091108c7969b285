use vstd::prelude::*;

verus! {

use crate::document::str_eq;

// ---------------------------------------------------------------------------
// Tokens
// ---------------------------------------------------------------------------

/// One parsed template token: literal text, a `$name` variable reference, or
/// a `[inner](stylename)` styled group holding a nested token sequence.
pub enum Token {
    Text(String),
    Var(String),
    Group(Vec<Token>, String),
}

/// Spec-level form of a token.
#[verifier::ext_equal]
pub enum TokenV {
    Text(Seq<char>),
    Var(Seq<char>),
    Group(Seq<TokenV>, Seq<char>),
}

/// Spec-level form of a token sequence.
pub open spec fn toks_view(ts: Seq<Token>) -> Seq<TokenV>
    decreases ts,
{
    Seq::new(
        ts.len(),
        |i: int|
            if 0 <= i < ts.len() {
                tok_view(ts[i])
            } else {
                TokenV::Text(Seq::empty())
            },
    )
}

/// Spec-level form of one token.
pub open spec fn tok_view(t: Token) -> TokenV
    decreases t,
{
    match t {
        Token::Text(s) => TokenV::Text(s@),
        Token::Var(s) => TokenV::Var(s@),
        Token::Group(ts, sty) => TokenV::Group(toks_view(ts@), sty@),
    }
}

/// Appending a token commutes with taking spec-level views.
proof fn lemma_toks_view_push(ts: Seq<Token>, t: Token)
    ensures
        toks_view(ts.push(t)) =~= toks_view(ts).push(tok_view(t)),
{
    assert forall|i: int| 0 <= i < ts.len() implies toks_view(ts.push(t))[i] == toks_view(
        ts,
    ).push(tok_view(t))[i] by {
        assert(ts.push(t)[i] == ts[i]);
    }
}

// ---------------------------------------------------------------------------
// Errors and output segments
// ---------------------------------------------------------------------------

/// Why a render failed: a malformed template, or a placeholder or style name
/// that no resolver recognizes. Rendering never returns partial output.
#[derive(Debug)]
pub enum FormatError {
    /// `]` with no `[` open before it.
    UnmatchedGroupClose,
    /// `[` that is never closed by `]`.
    UnterminatedGroup,
    /// `$` not followed by a variable name.
    EmptyVariableName,
    /// A group's `]` not followed by a complete `(stylename)`.
    MissingStyle,
    /// A `$name` that neither the meta map nor the variable map knows.
    UnknownVariable(String),
    /// A `(stylename)` that the style map does not know.
    UnknownStyle(String),
}

/// Spec-level form of a `FormatError`.
pub enum FormatErrorV {
    UnmatchedGroupClose,
    UnterminatedGroup,
    EmptyVariableName,
    MissingStyle,
    UnknownVariable(Seq<char>),
    UnknownStyle(Seq<char>),
}

impl View for FormatError {
    type V = FormatErrorV;

    open spec fn view(&self) -> FormatErrorV {
        match self {
            FormatError::UnmatchedGroupClose => FormatErrorV::UnmatchedGroupClose,
            FormatError::UnterminatedGroup => FormatErrorV::UnterminatedGroup,
            FormatError::EmptyVariableName => FormatErrorV::EmptyVariableName,
            FormatError::MissingStyle => FormatErrorV::MissingStyle,
            FormatError::UnknownVariable(s) => FormatErrorV::UnknownVariable(s@),
            FormatError::UnknownStyle(s) => FormatErrorV::UnknownStyle(s@),
        }
    }
}

/// The description of a render failure, as text.
pub open spec fn spec_error_text(e: FormatErrorV) -> Seq<char> {
    match e {
        FormatErrorV::UnmatchedGroupClose => "unmatched group close in format string"@,
        FormatErrorV::UnterminatedGroup => "unterminated group in format string"@,
        FormatErrorV::EmptyVariableName => "empty variable name in format string"@,
        FormatErrorV::MissingStyle => "group without a complete style in format string"@,
        FormatErrorV::UnknownVariable(n) => "unknown variable: "@ + n,
        FormatErrorV::UnknownStyle(n) => "unknown style: "@ + n,
    }
}

impl FormatError {
    /// A short description of the failure, for the host's error report.
    pub fn describe(&self) -> (r: String)
        ensures
            r@ == spec_error_text(self@),
    {
        match self {
            FormatError::UnmatchedGroupClose => String::from_str(
                "unmatched group close in format string",
            ),
            FormatError::UnterminatedGroup => String::from_str(
                "unterminated group in format string",
            ),
            FormatError::EmptyVariableName => String::from_str(
                "empty variable name in format string",
            ),
            FormatError::MissingStyle => String::from_str(
                "group without a complete style in format string",
            ),
            FormatError::UnknownVariable(n) => {
                let mut s = String::from_str("unknown variable: ");
                s.append(n.as_str());
                s
            },
            FormatError::UnknownStyle(n) => {
                let mut s = String::from_str("unknown style: ");
                s.append(n.as_str());
                s
            },
        }
    }
}

/// A single styled fragment of rendered output: a maximal run of text that
/// shares one style context, or `None` for unstyled text.
#[derive(Debug)]
pub struct Segment {
    pub text: String,
    pub style: Option<String>,
}

/// Spec-level form of a `Segment`.
#[verifier::ext_equal]
pub struct SegV {
    pub text: Seq<char>,
    pub style: Option<Seq<char>>,
}

/// Spec-level form of an optional string.
pub open spec fn opt_str_view(o: Option<String>) -> Option<Seq<char>> {
    match o {
        Some(s) => Some(s@),
        None => None,
    }
}

impl View for Segment {
    type V = SegV;

    open spec fn view(&self) -> SegV {
        SegV { text: self.text@, style: opt_str_view(self.style) }
    }
}

/// Spec-level form of a segment sequence.
pub open spec fn segs_view(ss: Seq<Segment>) -> Seq<SegV> {
    Seq::new(ss.len(), |i: int| ss[i]@)
}

// ---------------------------------------------------------------------------
// Parsing: a character-by-character state machine
// ---------------------------------------------------------------------------

/// Characters allowed in a `$name` variable reference.
pub open spec fn is_var_char(c: char) -> bool {
    ('a' <= c && c <= 'z') || ('A' <= c && c <= 'Z') || ('0' <= c && c <= '9') || c == '_'
}

/// What the parser is in the middle of reading.
pub enum PMode {
    /// Plain text.
    MText,
    /// A variable name, after `$`.
    MVar(Seq<char>),
    /// A finished group body, expecting `(`.
    MAwait(Seq<TokenV>),
    /// A style name, after a group's `(`.
    MStyle(Seq<TokenV>, Seq<char>),
}

/// Parser state: one token sequence per open `[` group (the first frame is
/// the top level), plus what is being read right now.
pub struct PState {
    pub stack: Seq<Seq<TokenV>>,
    pub mode: PMode,
}

/// A parser state after some prefix, or the first error met.
pub enum PStep {
    Going(PState),
    Failed(FormatErrorV),
}

/// The state before any character is read.
pub open spec fn init_state() -> PState {
    PState { stack: seq![Seq::<TokenV>::empty()], mode: PMode::MText }
}

/// Appends a finished token to the innermost open frame.
pub open spec fn push_tok(stack: Seq<Seq<TokenV>>, t: TokenV) -> Seq<Seq<TokenV>>
    recommends
        stack.len() >= 1,
{
    stack.update(stack.len() - 1, stack.last().push(t))
}

/// One character read in plain-text position over the given stack.
pub open spec fn step_text(stack: Seq<Seq<TokenV>>, c: char) -> PStep
    recommends
        stack.len() >= 1,
{
    if c == '$' {
        PStep::Going(PState { stack, mode: PMode::MVar(Seq::empty()) })
    } else if c == '[' {
        PStep::Going(PState { stack: stack.push(Seq::empty()), mode: PMode::MText })
    } else if c == ']' {
        if stack.len() >= 2 {
            PStep::Going(PState { stack: stack.drop_last(), mode: PMode::MAwait(stack.last()) })
        } else {
            PStep::Failed(FormatErrorV::UnmatchedGroupClose)
        }
    } else {
        PStep::Going(PState { stack: push_tok(stack, TokenV::Text(seq![c])), mode: PMode::MText })
    }
}

/// One character read in any state.
pub open spec fn pstep(st: PState, c: char) -> PStep {
    match st.mode {
        PMode::MText => step_text(st.stack, c),
        PMode::MVar(name) => {
            if is_var_char(c) {
                PStep::Going(PState { stack: st.stack, mode: PMode::MVar(name.push(c)) })
            } else if name.len() == 0 {
                PStep::Failed(FormatErrorV::EmptyVariableName)
            } else {
                step_text(push_tok(st.stack, TokenV::Var(name)), c)
            }
        },
        PMode::MAwait(inner) => {
            if c == '(' {
                PStep::Going(PState { stack: st.stack, mode: PMode::MStyle(inner, Seq::empty()) })
            } else {
                PStep::Failed(FormatErrorV::MissingStyle)
            }
        },
        PMode::MStyle(inner, sty) => {
            if c == ')' {
                PStep::Going(
                    PState { stack: push_tok(st.stack, TokenV::Group(inner, sty)), mode: PMode::MText },
                )
            } else if c == '$' && sty.len() == 0 {
                // a style written `$name` names the same resolver entry as `name`
                PStep::Going(PState { stack: st.stack, mode: PMode::MStyle(inner, sty) })
            } else {
                PStep::Going(PState { stack: st.stack, mode: PMode::MStyle(inner, sty.push(c)) })
            }
        },
    }
}

/// The parser state after the whole text, or the first error met.
pub open spec fn prun(s: Seq<char>) -> PStep
    decreases s.len(),
{
    if s.len() == 0 {
        PStep::Going(init_state())
    } else {
        match prun(s.drop_last()) {
            PStep::Failed(e) => PStep::Failed(e),
            PStep::Going(st) => pstep(st, s.last()),
        }
    }
}

/// Closes the final state: a pending variable name is flushed; an open group
/// or a half-read style is an error.
pub open spec fn finish(st: PState) -> Result<Seq<TokenV>, FormatErrorV> {
    match st.mode {
        PMode::MText => if st.stack.len() == 1 {
            Ok(st.stack[0])
        } else {
            Err(FormatErrorV::UnterminatedGroup)
        },
        PMode::MVar(name) => if name.len() == 0 {
            Err(FormatErrorV::EmptyVariableName)
        } else if st.stack.len() == 1 {
            Ok(push_tok(st.stack, TokenV::Var(name))[0])
        } else {
            Err(FormatErrorV::UnterminatedGroup)
        },
        PMode::MAwait(_) => Err(FormatErrorV::MissingStyle),
        PMode::MStyle(_, _) => Err(FormatErrorV::MissingStyle),
    }
}

/// The tokens of a template, or the first structural error in it.
pub open spec fn spec_parse(s: Seq<char>) -> Result<Seq<TokenV>, FormatErrorV> {
    match prun(s) {
        PStep::Failed(e) => Err(e),
        PStep::Going(st) => finish(st),
    }
}

/// Reading one more character applies one machine step.
pub proof fn lemma_prun_step(s: Seq<char>, i: int)
    requires
        0 <= i < s.len(),
    ensures
        prun(s.take(i + 1)) == match prun(s.take(i)) {
            PStep::Failed(e) => PStep::Failed(e),
            PStep::Going(st) => pstep(st, s[i]),
        },
{
    assert(s.take(i + 1).drop_last() =~= s.take(i));
    assert(s.take(i + 1).last() == s[i]);
}

/// An error met on a prefix is the result for the whole text.
proof fn lemma_prun_failed_persists(s: Seq<char>, j: int)
    requires
        0 <= j <= s.len(),
        prun(s.take(j)) is Failed,
    ensures
        prun(s) == prun(s.take(j)),
    decreases s.len() - j,
{
    if j < s.len() {
        lemma_prun_step(s, j);
        lemma_prun_failed_persists(s, j + 1);
    } else {
        assert(s.take(j) =~= s);
    }
}

proof fn lemma_toks_view_empty()
    ensures
        toks_view(Seq::<Token>::empty()) =~= Seq::<TokenV>::empty(),
{
}

// ---------------------------------------------------------------------------
// Executable parser
// ---------------------------------------------------------------------------

/// Executable counterpart of `PMode`.
enum EMode {
    Text,
    Var(String),
    Await(Vec<Token>),
    Style(Vec<Token>, String),
}

/// Spec-level form of the executable parser mode.
spec fn emode_view(m: EMode) -> PMode {
    match m {
        EMode::Text => PMode::MText,
        EMode::Var(s) => PMode::MVar(s@),
        EMode::Await(ts) => PMode::MAwait(toks_view(ts@)),
        EMode::Style(ts, sty) => PMode::MStyle(toks_view(ts@), sty@),
    }
}

/// Spec-level form of the executable frame stack.
spec fn stack_view(st: Seq<Vec<Token>>) -> Seq<Seq<TokenV>> {
    Seq::new(st.len(), |i: int| toks_view(st[i]@))
}

proof fn lemma_stack_view_push_frame(st: Seq<Vec<Token>>, f: Vec<Token>)
    ensures
        stack_view(st.push(f)) =~= stack_view(st).push(toks_view(f@)),
{
    assert forall|i: int| 0 <= i < st.len() implies stack_view(st.push(f))[i] == stack_view(
        st,
    ).push(toks_view(f@))[i] by {
        assert(st.push(f)[i] == st[i]);
    }
    assert(st.push(f)[st.len() as int] == f);
}

proof fn lemma_stack_view_drop_last(st: Seq<Vec<Token>>)
    requires
        st.len() >= 1,
    ensures
        stack_view(st.drop_last()) =~= stack_view(st).drop_last(),
        toks_view(st.last()@) == stack_view(st).last(),
{
    assert forall|i: int| 0 <= i < st.len() - 1 implies stack_view(st.drop_last())[i]
        == stack_view(st).drop_last()[i] by {
        assert(st.drop_last()[i] == st[i]);
    }
}

/// Appends a finished token to the innermost open frame.
fn push_token_exec(stack: &mut Vec<Vec<Token>>, t: Token)
    requires
        old(stack)@.len() >= 1,
    ensures
        final(stack)@.len() == old(stack)@.len(),
        stack_view(final(stack)@) == push_tok(stack_view(old(stack)@), tok_view(t)),
{
    let ghost old_stack = stack@;
    let ghost tv = tok_view(t);
    let mut top = stack.pop().unwrap();
    top.push(t);
    stack.push(top);
    proof {
        let n = old_stack.len() as int;
        assert(top@ == old_stack[n - 1]@.push(t));
        lemma_toks_view_push(old_stack[n - 1]@, t);
        assert(stack@ =~= old_stack.update(n - 1, top));
        assert(stack_view(stack@) =~= push_tok(stack_view(old_stack), tv));
    }
}

/// One character handled in plain-text position; returns the next mode.
fn step_text_exec(stack: &mut Vec<Vec<Token>>, piece: &str, c: char) -> (r: Result<
    EMode,
    FormatError,
>)
    requires
        old(stack)@.len() >= 1,
        piece@ == seq![c],
    ensures
        match r {
            Ok(m) => {
                &&& step_text(stack_view(old(stack)@), c) == PStep::Going(
                    PState { stack: stack_view(final(stack)@), mode: emode_view(m) },
                )
                &&& final(stack)@.len() >= 1
            },
            Err(e) => step_text(stack_view(old(stack)@), c) == PStep::Failed(e@),
        },
{
    if c == '$' {
        Ok(EMode::Var(String::new()))
    } else if c == '[' {
        let f: Vec<Token> = Vec::new();
        let ghost pre = stack@;
        stack.push(f);
        proof {
            lemma_stack_view_push_frame(pre, f);
            lemma_toks_view_empty();
            assert(stack_view(stack@) == stack_view(pre).push(Seq::<TokenV>::empty()));
        }
        Ok(EMode::Text)
    } else if c == ']' {
        if stack.len() >= 2 {
            let ghost pre = stack@;
            let inner = stack.pop().unwrap();
            proof {
                lemma_stack_view_drop_last(pre);
                assert(stack@ == pre.drop_last());
                assert(toks_view(inner@) == stack_view(pre).last());
            }
            Ok(EMode::Await(inner))
        } else {
            Err(FormatError::UnmatchedGroupClose)
        }
    } else {
        let t = Token::Text(piece.to_owned());
        proof {
            assert(tok_view(t) == TokenV::Text(seq![c]));
        }
        push_token_exec(stack, t);
        Ok(EMode::Text)
    }
}

/// Parses a template into its token sequence, or reports the first
/// structural error; no partial token sequence is ever returned.
pub fn parse_template(template: &str) -> (r: Result<Vec<Token>, FormatError>)
    ensures
        match r {
            Ok(ts) => spec_parse(template@) == Ok::<Seq<TokenV>, FormatErrorV>(toks_view(ts@)),
            Err(e) => spec_parse(template@) == Err::<Seq<TokenV>, FormatErrorV>(e@),
        },
{
    let n = template.unicode_len();
    let mut stack: Vec<Vec<Token>> = Vec::new();
    stack.push(Vec::new());
    let mut mode = EMode::Text;
    let mut i: usize = 0;
    proof {
        assert(template@.take(0) =~= Seq::<char>::empty());
        lemma_toks_view_empty();
        assert(stack_view(stack@) =~= init_state().stack);
    }
    while i < n
        invariant
            n == template@.len(),
            i <= n,
            stack@.len() >= 1,
            prun(template@.take(i as int)) == PStep::Going(
                PState { stack: stack_view(stack@), mode: emode_view(mode) },
            ),
        decreases n - i,
    {
        let c = template.get_char(i);
        let piece = template.substring_char(i, i + 1);
        proof {
            lemma_prun_step(template@, i as int);
            assert(piece@ =~= seq![c]);
        }
        let m = mode;
        mode = EMode::Text;
        match m {
            EMode::Text => {
                match step_text_exec(&mut stack, piece, c) {
                    Ok(m2) => {
                        mode = m2;
                    },
                    Err(e) => {
                        proof {
                            lemma_prun_failed_persists(template@, i + 1);
                        }
                        return Err(e);
                    },
                }
            },
            EMode::Var(mut name) => {
                if is_var_char_exec(c) {
                    let ghost oldname = name@;
                    name.append(piece);
                    proof {
                        assert(name@ =~= oldname.push(c));
                    }
                    mode = EMode::Var(name);
                } else if name.as_str().is_empty() {
                    proof {
                        lemma_prun_failed_persists(template@, i + 1);
                    }
                    return Err(FormatError::EmptyVariableName);
                } else {
                    let t = Token::Var(name);
                    push_token_exec(&mut stack, t);
                    match step_text_exec(&mut stack, piece, c) {
                        Ok(m2) => {
                            mode = m2;
                        },
                        Err(e) => {
                            proof {
                                lemma_prun_failed_persists(template@, i + 1);
                            }
                            return Err(e);
                        },
                    }
                }
            },
            EMode::Await(inner) => {
                if c == '(' {
                    mode = EMode::Style(inner, String::new());
                } else {
                    proof {
                        lemma_prun_failed_persists(template@, i + 1);
                    }
                    return Err(FormatError::MissingStyle);
                }
            },
            EMode::Style(inner, mut sty) => {
                if c == ')' {
                    let t = Token::Group(inner, sty);
                    push_token_exec(&mut stack, t);
                } else if c == '$' && sty.as_str().is_empty() {
                    mode = EMode::Style(inner, sty);
                } else {
                    let ghost oldsty = sty@;
                    sty.append(piece);
                    proof {
                        assert(sty@ =~= oldsty.push(c));
                    }
                    mode = EMode::Style(inner, sty);
                }
            },
        }
        i = i + 1;
    }
    proof {
        assert(template@.take(n as int) =~= template@);
    }
    match mode {
        EMode::Text => {
            if stack.len() == 1 {
                let ghost pre = stack@;
                let top = stack.pop().unwrap();
                proof {
                    assert(stack_view(pre)[0] == toks_view(top@));
                }
                Ok(top)
            } else {
                Err(FormatError::UnterminatedGroup)
            }
        },
        EMode::Var(name) => {
            if name.as_str().is_empty() {
                Err(FormatError::EmptyVariableName)
            } else if stack.len() == 1 {
                push_token_exec(&mut stack, Token::Var(name));
                let ghost pre = stack@;
                let top = stack.pop().unwrap();
                proof {
                    assert(stack_view(pre)[0] == toks_view(top@));
                }
                Ok(top)
            } else {
                Err(FormatError::UnterminatedGroup)
            }
        },
        EMode::Await(_) => Err(FormatError::MissingStyle),
        EMode::Style(_, _) => Err(FormatError::MissingStyle),
    }
}

// ---------------------------------------------------------------------------
// Rendering: resolve tokens to styled pieces, then merge by style runs
// ---------------------------------------------------------------------------

/// First value bound to `k` in a name-to-string map, or `None`.
pub open spec fn smap_get(m: Seq<(Seq<char>, Seq<char>)>, k: Seq<char>) -> Option<Seq<char>>
    decreases m.len(),
{
    if m.len() == 0 {
        None
    } else if m[0].0 == k {
        Some(m[0].1)
    } else {
        smap_get(m.skip(1), k)
    }
}

/// First value bound to `k` in a name-to-optional-string map: `None` when the
/// name is not recognized at all, `Some(None)` when it is recognized but has
/// no value right now.
pub open spec fn svmap_get(m: Seq<(Seq<char>, Option<Seq<char>>)>, k: Seq<char>) -> Option<
    Option<Seq<char>>,
>
    decreases m.len(),
{
    if m.len() == 0 {
        None
    } else if m[0].0 == k {
        Some(m[0].1)
    } else {
        svmap_get(m.skip(1), k)
    }
}

/// Spec-level form of a name-to-string map.
pub open spec fn smap_view(m: Seq<(String, String)>) -> Seq<(Seq<char>, Seq<char>)> {
    Seq::new(m.len(), |i: int| (m[i].0@, m[i].1@))
}

/// Spec-level form of a name-to-optional-string map.
pub open spec fn svmap_view(m: Seq<(String, Option<String>)>) -> Seq<
    (Seq<char>, Option<Seq<char>>),
> {
    Seq::new(m.len(), |i: int| (m[i].0@, opt_str_view(m[i].1)))
}

/// Spec-level form of a sequence of styled pieces.
pub open spec fn pieces_view(ps: Seq<(String, Option<String>)>) -> Seq<
    (Seq<char>, Option<Seq<char>>),
> {
    Seq::new(ps.len(), |i: int| (ps[i].0@, opt_str_view(ps[i].1)))
}

/// The styled pieces one token resolves to: a meta value or a variable value
/// for `$name` (an empty piece when the variable is known but has no value),
/// the text itself for a text run, and the resolved inner pieces for a styled
/// group; or the first unknown name met.
pub open spec fn render_tok(
    t: TokenV,
    ctx: Option<Seq<char>>,
    metas: Seq<(Seq<char>, Seq<char>)>,
    vars: Seq<(Seq<char>, Option<Seq<char>>)>,
    styles: Seq<(Seq<char>, Seq<char>)>,
) -> Result<Seq<(Seq<char>, Option<Seq<char>>)>, FormatErrorV>
    decreases t,
{
    match t {
        TokenV::Text(s) => Ok(seq![(s, ctx)]),
        TokenV::Var(name) => match smap_get(metas, name) {
            Some(v) => Ok(seq![(v, ctx)]),
            None => match svmap_get(vars, name) {
                Some(Some(v)) => Ok(seq![(v, ctx)]),
                Some(None) => Ok(seq![(Seq::<char>::empty(), ctx)]),
                None => Err(FormatErrorV::UnknownVariable(name)),
            },
        },
        TokenV::Group(inner, sname) => match smap_get(styles, sname) {
            Some(sval) => render_toks(inner, Some(sval), metas, vars, styles),
            None => Err(FormatErrorV::UnknownStyle(sname)),
        },
    }
}

/// The styled pieces a token sequence resolves to, in template order, or the
/// leftmost error in it.
pub open spec fn render_toks(
    ts: Seq<TokenV>,
    ctx: Option<Seq<char>>,
    metas: Seq<(Seq<char>, Seq<char>)>,
    vars: Seq<(Seq<char>, Option<Seq<char>>)>,
    styles: Seq<(Seq<char>, Seq<char>)>,
) -> Result<Seq<(Seq<char>, Option<Seq<char>>)>, FormatErrorV>
    decreases ts,
{
    if ts.len() == 0 {
        Ok(Seq::empty())
    } else {
        match render_toks(ts.drop_last(), ctx, metas, vars, styles) {
            Err(e) => Err(e),
            Ok(ps) => match render_tok(ts.last(), ctx, metas, vars, styles) {
                Err(e) => Err(e),
                Ok(qs) => Ok(ps + qs),
            },
        }
    }
}

/// Merges resolved pieces into segments: empty pieces vanish, and adjacent
/// pieces that share a style context become one segment, so each segment is
/// a maximal nonempty run of one style.
pub open spec fn merge_pieces(ps: Seq<(Seq<char>, Option<Seq<char>>)>) -> Seq<SegV>
    decreases ps.len(),
{
    if ps.len() == 0 {
        Seq::empty()
    } else {
        let rest = merge_pieces(ps.drop_last());
        let p = ps.last();
        if p.0.len() == 0 {
            rest
        } else if rest.len() > 0 && rest.last().style == p.1 {
            rest.update(rest.len() - 1, SegV { text: rest.last().text + p.0, style: p.1 })
        } else {
            rest.push(SegV { text: p.0, style: p.1 })
        }
    }
}

/// The whole formatter: parse, resolve every token, merge into segments.
/// Any structural error yields `Err` and no segments at all.
pub open spec fn spec_render(
    template: Seq<char>,
    metas: Seq<(Seq<char>, Seq<char>)>,
    vars: Seq<(Seq<char>, Option<Seq<char>>)>,
    styles: Seq<(Seq<char>, Seq<char>)>,
) -> Result<Seq<SegV>, FormatErrorV> {
    match spec_parse(template) {
        Err(e) => Err(e),
        Ok(ts) => match render_toks(ts, None, metas, vars, styles) {
            Err(e) => Err(e),
            Ok(ps) => Ok(merge_pieces(ps)),
        },
    }
}

/// Executable test for `is_var_char`.
fn is_var_char_exec(c: char) -> (r: bool)
    ensures
        r == is_var_char(c),
{
    ('a' <= c && c <= 'z') || ('A' <= c && c <= 'Z') || ('0' <= c && c <= '9') || c == '_'
}

/// An error met on a token prefix is the result for the whole sequence.
proof fn lemma_render_toks_err_persists(
    ts: Seq<TokenV>,
    j: int,
    ctx: Option<Seq<char>>,
    metas: Seq<(Seq<char>, Seq<char>)>,
    vars: Seq<(Seq<char>, Option<Seq<char>>)>,
    styles: Seq<(Seq<char>, Seq<char>)>,
)
    requires
        0 <= j <= ts.len(),
        render_toks(ts.take(j), ctx, metas, vars, styles) is Err,
    ensures
        render_toks(ts, ctx, metas, vars, styles) == render_toks(ts.take(j), ctx, metas, vars, styles),
    decreases ts.len() - j,
{
    if j < ts.len() {
        assert(ts.take(j + 1).drop_last() =~= ts.take(j));
        assert(ts.take(j + 1).last() == ts[j]);
        lemma_render_toks_err_persists(ts, j + 1, ctx, metas, vars, styles);
    } else {
        assert(ts.take(j) =~= ts);
    }
}

/// Clones an optional style string.
fn clone_opt_string(o: &Option<String>) -> (r: Option<String>)
    ensures
        opt_str_view(r) == opt_str_view(*o),
{
    match o {
        Some(s) => Some(s.clone()),
        None => None,
    }
}

/// First entry for `k` in a name-to-string table.
fn smap_lookup<'a>(m: &'a Vec<(String, String)>, k: &str) -> (r: Option<&'a String>)
    ensures
        match r {
            Some(v) => smap_get(smap_view(m@), k@) == Some(v@),
            None => smap_get(smap_view(m@), k@) is None,
        },
{
    let ghost gm = smap_view(m@);
    let n = m.len();
    let mut i: usize = 0;
    proof {
        assert(gm.skip(0) =~= gm);
    }
    while i < n
        invariant
            n == m@.len(),
            i <= n,
            gm == smap_view(m@),
            gm.len() == n,
            smap_get(gm, k@) == smap_get(gm.skip(i as int), k@),
        decreases n - i,
    {
        proof {
            assert(gm.skip(i as int)[0] == gm[i as int]);
        }
        if str_eq(m[i].0.as_str(), k) {
            return Some(&m[i].1);
        }
        proof {
            assert(gm.skip(i as int).skip(1) =~= gm.skip(i + 1));
        }
        i = i + 1;
    }
    proof {
        assert(gm.skip(i as int).len() == 0);
    }
    None
}

/// First entry for `k` in a name-to-optional-string table.
fn svmap_lookup<'a>(m: &'a Vec<(String, Option<String>)>, k: &str) -> (r: Option<
    &'a Option<String>,
>)
    ensures
        match r {
            Some(v) => svmap_get(svmap_view(m@), k@) == Some(opt_str_view(*v)),
            None => svmap_get(svmap_view(m@), k@) is None,
        },
{
    let ghost gm = svmap_view(m@);
    let n = m.len();
    let mut i: usize = 0;
    proof {
        assert(gm.skip(0) =~= gm);
    }
    while i < n
        invariant
            n == m@.len(),
            i <= n,
            gm == svmap_view(m@),
            gm.len() == n,
            svmap_get(gm, k@) == svmap_get(gm.skip(i as int), k@),
        decreases n - i,
    {
        proof {
            assert(gm.skip(i as int)[0] == gm[i as int]);
        }
        if str_eq(m[i].0.as_str(), k) {
            return Some(&m[i].1);
        }
        proof {
            assert(gm.skip(i as int).skip(1) =~= gm.skip(i + 1));
        }
        i = i + 1;
    }
    proof {
        assert(gm.skip(i as int).len() == 0);
    }
    None
}

proof fn lemma_pieces_view_push(ps: Seq<(String, Option<String>)>, p: (String, Option<String>))
    ensures
        pieces_view(ps.push(p)) =~= pieces_view(ps).push((p.0@, opt_str_view(p.1))),
{
    assert forall|i: int| 0 <= i < ps.len() implies pieces_view(ps.push(p))[i] == pieces_view(
        ps,
    ).push((p.0@, opt_str_view(p.1)))[i] by {
        assert(ps.push(p)[i] == ps[i]);
    }
    assert(ps.push(p)[ps.len() as int] == p);
}

/// Resolves one token, appending its pieces to `out`; on an unknown name the
/// error is returned and the whole render is abandoned by the caller.
fn render_one(
    t: &Token,
    ctx: &Option<String>,
    metas: &Vec<(String, String)>,
    vars: &Vec<(String, Option<String>)>,
    styles: &Vec<(String, String)>,
    out: &mut Vec<(String, Option<String>)>,
) -> (r: Result<(), FormatError>)
    ensures
        match render_tok(
            tok_view(*t),
            opt_str_view(*ctx),
            smap_view(metas@),
            svmap_view(vars@),
            smap_view(styles@),
        ) {
            Ok(ps) => r is Ok && pieces_view(final(out)@) == pieces_view(old(out)@) + ps,
            Err(e) => r matches Err(e2) && e2@ == e,
        },
    decreases *t,
{
    let ghost gctx = opt_str_view(*ctx);
    match t {
        Token::Text(s) => {
            let piece = (s.clone(), clone_opt_string(ctx));
            let ghost gp = piece;
            out.push(piece);
            proof {
                lemma_pieces_view_push(old(out)@, gp);
                assert(pieces_view(out@) =~= pieces_view(old(out)@) + seq![(s@, gctx)]);
            }
            Ok(())
        },
        Token::Var(name) => {
            match smap_lookup(metas, name.as_str()) {
                Some(v) => {
                    let piece = (v.clone(), clone_opt_string(ctx));
                    let ghost gp = piece;
                    out.push(piece);
                    proof {
                        lemma_pieces_view_push(old(out)@, gp);
                        assert(pieces_view(out@) =~= pieces_view(old(out)@) + seq![(v@, gctx)]);
                    }
                    Ok(())
                },
                None => match svmap_lookup(vars, name.as_str()) {
                    Some(vo) => {
                        let piece = match vo {
                            Some(v) => (v.clone(), clone_opt_string(ctx)),
                            None => (String::new(), clone_opt_string(ctx)),
                        };
                        let ghost gp = piece;
                        out.push(piece);
                        proof {
                            lemma_pieces_view_push(old(out)@, gp);
                            assert(pieces_view(out@) =~= pieces_view(old(out)@) + seq![
                                (gp.0@, gctx),
                            ]);
                        }
                        Ok(())
                    },
                    None => Err(FormatError::UnknownVariable(name.clone())),
                },
            }
        },
        Token::Group(inner, sname) => {
            match smap_lookup(styles, sname.as_str()) {
                None => Err(FormatError::UnknownStyle(sname.clone())),
                Some(sval) => {
                    let ctx2 = Some(sval.clone());
                    render_seq(inner, &ctx2, metas, vars, styles, out)
                },
            }
        },
    }
}

/// Resolves a token sequence left to right, appending pieces to `out`.
fn render_seq(
    ts: &Vec<Token>,
    ctx: &Option<String>,
    metas: &Vec<(String, String)>,
    vars: &Vec<(String, Option<String>)>,
    styles: &Vec<(String, String)>,
    out: &mut Vec<(String, Option<String>)>,
) -> (r: Result<(), FormatError>)
    ensures
        match render_toks(
            toks_view(ts@),
            opt_str_view(*ctx),
            smap_view(metas@),
            svmap_view(vars@),
            smap_view(styles@),
        ) {
            Ok(ps) => r is Ok && pieces_view(final(out)@) == pieces_view(old(out)@) + ps,
            Err(e) => r matches Err(e2) && e2@ == e,
        },
    decreases ts@,
{
    let ghost tv = toks_view(ts@);
    let ghost gctx = opt_str_view(*ctx);
    let ghost gm = smap_view(metas@);
    let ghost gv = svmap_view(vars@);
    let ghost gs = smap_view(styles@);
    let ghost base = pieces_view(old(out)@);
    let n = ts.len();
    let mut j: usize = 0;
    proof {
        assert(tv.take(0) =~= Seq::<TokenV>::empty());
        assert(pieces_view(out@) =~= base + Seq::empty());
    }
    while j < n
        invariant
            n == ts@.len(),
            j <= n,
            tv == toks_view(ts@),
            tv.len() == n,
            gctx == opt_str_view(*ctx),
            gm == smap_view(metas@),
            gv == svmap_view(vars@),
            gs == smap_view(styles@),
            base == pieces_view(old(out)@),
            render_toks(tv.take(j as int), gctx, gm, gv, gs) matches Ok(ps) && pieces_view(out@)
                == base + ps,
        decreases n - j,
    {
        proof {
            assert(tv.take(j + 1).drop_last() =~= tv.take(j as int));
            assert(tv.take(j + 1).last() == tv[j as int]);
            assert(tv[j as int] == tok_view(ts@[j as int]));
        }
        let ghost mid = pieces_view(out@);
        match render_one(&ts[j], ctx, metas, vars, styles, out) {
            Ok(()) => {
                proof {
                    let ps = render_toks(tv.take(j as int), gctx, gm, gv, gs)->Ok_0;
                    let qs = render_tok(tv[j as int], gctx, gm, gv, gs)->Ok_0;
                    assert(pieces_view(out@) == mid + qs);
                    assert(base + ps + qs =~= base + (ps + qs));
                }
            },
            Err(e) => {
                proof {
                    assert(render_toks(tv.take(j + 1), gctx, gm, gv, gs) is Err);
                    lemma_render_toks_err_persists(tv, j + 1, gctx, gm, gv, gs);
                }
                return Err(e);
            },
        }
        j = j + 1;
    }
    proof {
        assert(tv.take(n as int) =~= tv);
    }
    Ok(())
}

/// Compares two optional style names.
fn opt_style_eq(a: &Option<String>, b: &Option<String>) -> (r: bool)
    ensures
        r == (opt_str_view(*a) == opt_str_view(*b)),
{
    match (a, b) {
        (Some(x), Some(y)) => str_eq(x.as_str(), y.as_str()),
        (None, None) => true,
        _ => false,
    }
}

/// Merges resolved pieces into maximal same-style segments.
fn merge_segments(pieces: &Vec<(String, Option<String>)>) -> (r: Vec<Segment>)
    ensures
        segs_view(r@) == merge_pieces(pieces_view(pieces@)),
{
    let ghost pv = pieces_view(pieces@);
    let mut out: Vec<Segment> = Vec::new();
    let n = pieces.len();
    let mut j: usize = 0;
    proof {
        assert(pv.take(0) =~= Seq::<(Seq<char>, Option<Seq<char>>)>::empty());
        assert(segs_view(out@) =~= merge_pieces(pv.take(0)));
    }
    while j < n
        invariant
            n == pieces@.len(),
            j <= n,
            pv == pieces_view(pieces@),
            pv.len() == n,
            segs_view(out@) == merge_pieces(pv.take(j as int)),
        decreases n - j,
    {
        proof {
            assert(pv.take(j + 1).drop_last() =~= pv.take(j as int));
            assert(pv.take(j + 1).last() == pv[j as int]);
        }
        let ghost prev = segs_view(out@);
        let txt = &pieces[j].0;
        let sty = &pieces[j].1;
        if !txt.as_str().is_empty() {
            let mut same = false;
            if out.len() > 0 {
                same = opt_style_eq(&out[out.len() - 1].style, sty);
            }
            if same {
                let ghost pre = out@;
                let mut lastseg = out.pop().unwrap();
                lastseg.text.append(txt.as_str());
                let ghost gseg = lastseg;
                out.push(lastseg);
                proof {
                    assert(out@ =~= pre.update(pre.len() - 1, gseg));
                    assert(gseg@.text == prev.last().text + pv[j as int].0);
                    assert(gseg@.style == pv[j as int].1);
                    assert(gseg@ == SegV { text: prev.last().text + pv[j as int].0, style: pv[j as int].1 });
                    assert(segs_view(out@) =~= prev.update(prev.len() - 1, gseg@));
                }
            } else {
                let seg = Segment { text: txt.clone(), style: clone_opt_string(sty) };
                let ghost gseg = seg;
                out.push(seg);
                proof {
                    assert(segs_view(out@) =~= prev.push(gseg@));
                }
            }
        }
        j = j + 1;
    }
    proof {
        assert(pv.take(n as int) =~= pv);
    }
    out
}

/// Renders a parsed token sequence against the three name tables; either a
/// full segment sequence or the leftmost unknown name, never partial output.
pub fn render_tokens(
    tokens: &Vec<Token>,
    metas: &Vec<(String, String)>,
    vars: &Vec<(String, Option<String>)>,
    styles: &Vec<(String, String)>,
) -> (r: Result<Vec<Segment>, FormatError>)
    ensures
        match render_toks(
            toks_view(tokens@),
            None,
            smap_view(metas@),
            svmap_view(vars@),
            smap_view(styles@),
        ) {
            Ok(ps) => r matches Ok(segs) && segs_view(segs@) == merge_pieces(ps),
            Err(e) => r matches Err(e2) && e2@ == e,
        },
{
    let mut pieces: Vec<(String, Option<String>)> = Vec::new();
    let none_ctx: Option<String> = None;
    match render_seq(tokens, &none_ctx, metas, vars, styles, &mut pieces) {
        Ok(()) => {
            proof {
                assert(pieces_view(Seq::<(String, Option<String>)>::empty()) =~= Seq::<
                    (Seq<char>, Option<Seq<char>>),
                >::empty());
                let ps = render_toks(
                    toks_view(tokens@),
                    None,
                    smap_view(metas@),
                    svmap_view(vars@),
                    smap_view(styles@),
                )->Ok_0;
                assert(pieces_view(pieces@) =~= ps);
            }
            Ok(merge_segments(&pieces))
        },
        Err(e) => Err(e),
    }
}

/// The text of a segment sequence, in order.
pub open spec fn segs_text(ss: Seq<SegV>) -> Seq<char>
    decreases ss.len(),
{
    if ss.len() == 0 {
        Seq::empty()
    } else {
        segs_text(ss.drop_last()) + ss.last().text
    }
}

/// The text of a piece sequence, in order.
pub open spec fn pieces_text(ps: Seq<(Seq<char>, Option<Seq<char>>)>) -> Seq<char>
    decreases ps.len(),
{
    if ps.len() == 0 {
        Seq::empty()
    } else {
        pieces_text(ps.drop_last()) + ps.last().0
    }
}

/// Merging pieces into segments never loses, duplicates or reorders text:
/// the segments spell out exactly the resolved pieces.
pub proof fn lemma_merge_preserves_text(ps: Seq<(Seq<char>, Option<Seq<char>>)>)
    ensures
        segs_text(merge_pieces(ps)) =~= pieces_text(ps),
    decreases ps.len(),
{
    if ps.len() > 0 {
        lemma_merge_preserves_text(ps.drop_last());
        let rest = merge_pieces(ps.drop_last());
        let p = ps.last();
        if p.0.len() == 0 {
            assert(pieces_text(ps) =~= pieces_text(ps.drop_last()));
        } else if rest.len() > 0 && rest.last().style == p.1 {
            let merged = merge_pieces(ps);
            assert(merged.drop_last() =~= rest.drop_last());
            assert(merged.last().text == rest.last().text + p.0);
            assert(segs_text(rest) == segs_text(rest.drop_last()) + rest.last().text);
            assert(segs_text(merged) =~= (segs_text(rest.drop_last()) + rest.last().text) + p.0);
        } else {
            let merged = merge_pieces(ps);
            assert(merged.drop_last() =~= rest);
        }
    }
}

/// The whole formatter: parses the template and renders it, as one call.
pub fn render_template(
    template: &str,
    metas: &Vec<(String, String)>,
    vars: &Vec<(String, Option<String>)>,
    styles: &Vec<(String, String)>,
) -> (r: Result<Vec<Segment>, FormatError>)
    ensures
        match spec_render(template@, smap_view(metas@), svmap_view(vars@), smap_view(styles@)) {
            Ok(segs) => r matches Ok(v) && segs_view(v@) == segs,
            Err(e) => r matches Err(e2) && e2@ == e,
        },
{
    match parse_template(template) {
        Err(e) => Err(e),
        Ok(tokens) => render_tokens(&tokens, metas, vars, styles),
    }
}

} // verus!
