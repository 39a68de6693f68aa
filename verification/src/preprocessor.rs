//! The preprocessor: a token-to-token rewriter.
//!
//! It registers and expands macros, splices included files into the token
//! stream between `EnterInclude` / `ExitInclude` boundary tokens, and drops
//! comments.  File contents are not read here: the caller hands over an
//! [`IncludeMap`] of path to content, and a missing path is reported as an
//! error naming it, so that the caller can supply the file and run again.

use vstd::prelude::*;
use crate::lexer::{
    tokenize, spec_tokenize, lemma_lex_len, LexerToken, LexerTokenType, LexerError, TokenView,
};

verus! {

/// How many nested includes are followed before giving up.
pub const INCLUDE_DEPTH: usize = 64;

/// Path-to-content table for `%include`.
pub struct IncludeMap {
    pub entries: Vec<(Vec<char>, Vec<char>)>,
}

/// First match for a path in an include table.
pub open spec fn spec_include_lookup(
    m: Seq<(Seq<char>, Seq<char>)>,
    path: Seq<char>,
) -> Option<Seq<char>>
    decreases m.len(),
{
    if m.len() == 0 {
        None
    } else if m[0].0 == path {
        Some(m[0].1)
    } else {
        spec_include_lookup(m.drop_first(), path)
    }
}

impl View for IncludeMap {
    type V = Seq<(Seq<char>, Seq<char>)>;

    open spec fn view(&self) -> Seq<(Seq<char>, Seq<char>)> {
        Seq::new(self.entries@.len(), |i: int| (self.entries@[i].0@, self.entries@[i].1@))
    }
}

impl IncludeMap {
    pub fn new() -> (r: Self)
        ensures
            r@ == Seq::<(Seq<char>, Seq<char>)>::empty(),
    {
        let r = IncludeMap { entries: Vec::new() };
        proof {
            assert(r@ =~= Seq::<(Seq<char>, Seq<char>)>::empty());
        }
        r
    }

    /// Registers a file's content under its path.
    pub fn insert(&mut self, path: Vec<char>, content: Vec<char>)
        ensures
            final(self)@ == old(self)@.push((path@, content@)),
    {
        let ghost p = path@;
        let ghost c = content@;
        self.entries.push((path, content));
        proof {
            assert(self@ =~= old(self)@.push((p, c)));
        }
    }

    /// Fetches the content registered for a path.
    pub fn get(&self, path: &[char]) -> (r: Option<&Vec<char>>)
        ensures
            match spec_include_lookup(self@, path@) {
                Some(c) => r is Some && r->Some_0@ == c,
                None => r is None,
            },
    {
        proof {
            assert(self@.skip(0) =~= self@);
        }
        let mut i: usize = 0;
        while i < self.entries.len()
            invariant
                i <= self.entries@.len(),
                self@.len() == self.entries@.len(),
                spec_include_lookup(self@, path@)
                    == spec_include_lookup(self@.skip(i as int), path@),
            decreases self.entries@.len() - i,
        {
            proof {
                assert(self@.skip(i as int)[0] == self@[i as int]);
                assert(self@.skip(i as int).drop_first() =~= self@.skip(i + 1));
            }
            if crate::text::eq_chars(self.entries[i].0.as_slice(), path) {
                return Some(&self.entries[i].1);
            }
            i = i + 1;
        }
        proof {
            assert(self@.skip(i as int).len() == 0);
        }
        None
    }
}

/// The mathematical image of a registered macro: parameter names and body.
pub ghost struct MacroView {
    pub params: Seq<Seq<char>>,
    pub body: Seq<TokenView>,
}

/// A registered macro: parameter names and the captured body tokens.
#[derive(Clone, Debug)]
pub struct Macro {
    pub args: Vec<Vec<char>>,
    pub token_list: Vec<LexerToken>,
}

impl DeepView for Macro {
    type V = MacroView;

    open spec fn deep_view(&self) -> MacroView {
        MacroView {
            params: Seq::new(self.args@.len(), |i: int| self.args@[i]@),
            body: self.token_list.deep_view(),
        }
    }
}

/// The mathematical image of a macro environment.
pub open spec fn env_view(e: Seq<(Vec<char>, Macro)>) -> Seq<(Seq<char>, MacroView)> {
    Seq::new(e.len(), |i: int| (e[i].0@, e[i].1.deep_view()))
}

/// The mathematical image of a preprocessing failure.
pub ghost enum PreErrView {
    Lexer { line: nat, column: nat },
    EOF { line: nat, column: nat },
    MissingInclude { path: Seq<char>, line: nat, column: nat },
    MacroRedefined { line: nat, column: nat },
    UnknownInstruction { line: nat, column: nat },
    ArgumentCount { line: nat, column: nat },
    IncludeDepth { line: nat, column: nat },
}

/// A failure while preprocessing, with the position where it happened.
///
/// `MissingInclude` names the path that the [`IncludeMap`] lacks, so a
/// caller that can read files may supply it and run the preprocessor again.
#[derive(Clone, Debug)]
pub enum PreprocessError {
    Lexer { line: usize, column: usize },
    EOF { line: usize, column: usize },
    MissingInclude { path: Vec<char>, line: usize, column: usize },
    MacroRedefined { line: usize, column: usize },
    UnknownInstruction { line: usize, column: usize },
    ArgumentCount { line: usize, column: usize },
    IncludeDepth { line: usize, column: usize },
}

impl DeepView for PreprocessError {
    type V = PreErrView;

    open spec fn deep_view(&self) -> PreErrView {
        match self {
            PreprocessError::Lexer { line, column } => PreErrView::Lexer {
                line: *line as nat,
                column: *column as nat,
            },
            PreprocessError::EOF { line, column } => PreErrView::EOF {
                line: *line as nat,
                column: *column as nat,
            },
            PreprocessError::MissingInclude { path, line, column } => PreErrView::MissingInclude {
                path: path@,
                line: *line as nat,
                column: *column as nat,
            },
            PreprocessError::MacroRedefined { line, column } => PreErrView::MacroRedefined {
                line: *line as nat,
                column: *column as nat,
            },
            PreprocessError::UnknownInstruction { line, column } => PreErrView::UnknownInstruction {
                line: *line as nat,
                column: *column as nat,
            },
            PreprocessError::ArgumentCount { line, column } => PreErrView::ArgumentCount {
                line: *line as nat,
                column: *column as nat,
            },
            PreprocessError::IncludeDepth { line, column } => PreErrView::IncludeDepth {
                line: *line as nat,
                column: *column as nat,
            },
        }
    }
}

/// First match for a macro name in an environment.
pub open spec fn spec_macro_lookup(
    env: Seq<(Seq<char>, MacroView)>,
    name: Seq<char>,
) -> Option<MacroView>
    decreases env.len(),
{
    if env.len() == 0 {
        None
    } else if env[0].0 == name {
        Some(env[0].1)
    } else {
        spec_macro_lookup(env.drop_first(), name)
    }
}

/// First index of a parameter name in a parameter list.
pub open spec fn spec_param_index(params: Seq<Seq<char>>, name: Seq<char>) -> Option<nat>
    decreases params.len(),
{
    if params.len() == 0 {
        None
    } else if params[0] == name {
        Some(0nat)
    } else {
        match spec_param_index(params.drop_first(), name) {
            Some(k) => Some(k + 1),
            None => None,
        }
    }
}

// ---------------------------------------------------------------------------
// Macro definition: parameter list and body capture.

/// Parameter names between the parentheses of a macro definition, starting
/// at `i`; `pl`/`pc` position an end-of-input report.
pub open spec fn spec_collect_params(
    s: Seq<TokenView>,
    i: nat,
    pl: nat,
    pc: nat,
) -> Result<(Seq<Seq<char>>, nat), PreErrView>
    decreases s.len() - i,
    when i <= s.len()
{
    if i >= s.len() {
        Err(PreErrView::EOF { line: pl, column: pc })
    } else {
        let t = s[i as int];
        if t.kind == LexerTokenType::RParen {
            Ok((Seq::empty(), i + 1))
        } else if t.kind == LexerTokenType::Identifier {
            if i + 1 >= s.len() {
                Err(PreErrView::EOF { line: t.line, column: t.column })
            } else {
                let nt = s[i + 1 as int];
                if nt.kind == LexerTokenType::Comma {
                    match spec_collect_params(s, i + 2, nt.line, nt.column) {
                        Ok((rest, next)) => Ok((seq![t.slice] + rest, next)),
                        Err(e) => Err(e),
                    }
                } else if nt.kind == LexerTokenType::RParen {
                    Ok((seq![t.slice], i + 2))
                } else {
                    Err(PreErrView::Lexer { line: nt.line, column: nt.column })
                }
            }
        } else {
            Err(PreErrView::Lexer { line: t.line, column: t.column })
        }
    }
}

pub proof fn lemma_collect_params_bounds(s: Seq<TokenView>, i: nat, pl: nat, pc: nat)
    requires
        i <= s.len(),
        spec_collect_params(s, i, pl, pc) is Ok,
    ensures
        i < spec_collect_params(s, i, pl, pc)->Ok_0.1 <= s.len(),
    decreases s.len() - i,
{
    if i < s.len() {
        let t = s[i as int];
        if t.kind == LexerTokenType::Identifier && i + 1 < s.len()
            && s[i + 1 as int].kind == LexerTokenType::Comma {
            lemma_collect_params_bounds(s, i + 2, s[i + 1 as int].line, s[i + 1 as int].column);
        }
    }
}

/// The body tokens of a macro definition, starting after the opening brace,
/// with `depth` unmatched braces open.  Comments are dropped at definition
/// time; the closing brace is consumed.
pub open spec fn spec_collect_body(
    s: Seq<TokenView>,
    i: nat,
    depth: nat,
    pl: nat,
    pc: nat,
) -> Result<(Seq<TokenView>, nat), PreErrView>
    decreases s.len() - i,
    when i <= s.len()
{
    if i >= s.len() {
        Err(PreErrView::EOF { line: pl, column: pc })
    } else {
        let t = s[i as int];
        if t.kind == LexerTokenType::RBracket && depth == 1 {
            Ok((Seq::empty(), i + 1))
        } else {
            let depth2: nat = if t.kind == LexerTokenType::RBracket {
                (depth - 1) as nat
            } else if t.kind == LexerTokenType::LBracket {
                depth + 1
            } else {
                depth
            };
            match spec_collect_body(s, i + 1, depth2, pl, pc) {
                Ok((rest, next)) => {
                    if t.kind == LexerTokenType::Comment {
                        Ok((rest, next))
                    } else {
                        Ok((seq![t] + rest, next))
                    }
                },
                Err(e) => Err(e),
            }
        }
    }
}

pub proof fn lemma_collect_body_bounds(s: Seq<TokenView>, i: nat, depth: nat, pl: nat, pc: nat)
    requires
        i <= s.len(),
        spec_collect_body(s, i, depth, pl, pc) is Ok,
    ensures
        i < spec_collect_body(s, i, depth, pl, pc)->Ok_0.1 <= s.len(),
    decreases s.len() - i,
{
    if i < s.len() {
        let t = s[i as int];
        if !(t.kind == LexerTokenType::RBracket && depth == 1) {
            let depth2: nat = if t.kind == LexerTokenType::RBracket {
                (depth - 1) as nat
            } else if t.kind == LexerTokenType::LBracket {
                depth + 1
            } else {
                depth
            };
            if spec_collect_body(s, i + 1, depth2, pl, pc) is Ok {
                lemma_collect_body_bounds(s, i + 1, depth2, pl, pc);
            }
        }
    }
}

/// Registration of one `%macro` definition starting at `i` (the `%macro`
/// token itself): the extended environment and the next position.
pub open spec fn spec_macro_def(
    s: Seq<TokenView>,
    i: nat,
    env: Seq<(Seq<char>, MacroView)>,
) -> Result<(Seq<(Seq<char>, MacroView)>, nat), PreErrView>
    recommends
        i < s.len(),
{
    let t = s[i as int];
    if i + 1 >= s.len() {
        Err(PreErrView::EOF { line: t.line, column: t.column })
    } else {
        let nt = s[i + 1 as int];
        if nt.kind != LexerTokenType::Identifier {
            Err(PreErrView::Lexer { line: nt.line, column: nt.column })
        } else if i + 2 >= s.len() {
            Err(PreErrView::EOF { line: nt.line, column: nt.column })
        } else {
            let pt = s[i + 2 as int];
            if pt.kind == LexerTokenType::LParen {
                match spec_collect_params(s, i + 3, pt.line, pt.column) {
                    Ok((params, j)) => spec_macro_def_at(s, j, env, nt, params),
                    Err(e) => Err(e),
                }
            } else {
                spec_macro_def_at(s, i + 2, env, nt, Seq::empty())
            }
        }
    }
}

/// The brace-delimited body of a definition whose name token is `nt`,
/// starting at `j`.
pub open spec fn spec_macro_def_at(
    s: Seq<TokenView>,
    j: nat,
    env: Seq<(Seq<char>, MacroView)>,
    nt: TokenView,
    params: Seq<Seq<char>>,
) -> Result<(Seq<(Seq<char>, MacroView)>, nat), PreErrView>
    recommends
        j <= s.len(),
{
    if j >= s.len() {
        Err(PreErrView::EOF { line: nt.line, column: nt.column })
    } else if s[j as int].kind != LexerTokenType::LBracket {
        Err(PreErrView::Lexer { line: s[j as int].line, column: s[j as int].column })
    } else {
        match spec_collect_body(s, j + 1, 1, s[j as int].line, s[j as int].column) {
            Ok((body, next)) => {
                if spec_macro_lookup(env, nt.slice) is Some {
                    Err(PreErrView::MacroRedefined { line: nt.line, column: nt.column })
                } else {
                    Ok((env.push((nt.slice, MacroView { params, body })), next))
                }
            },
            Err(e) => Err(e),
        }
    }
}

pub proof fn lemma_macro_def_bounds(s: Seq<TokenView>, i: nat, env: Seq<(Seq<char>, MacroView)>)
    requires
        i < s.len(),
        spec_macro_def(s, i, env) is Ok,
    ensures
        i < spec_macro_def(s, i, env)->Ok_0.1 <= s.len(),
{
    let nt = s[i + 1 as int];
    let pt = s[i + 2 as int];
    if pt.kind == LexerTokenType::LParen {
        match spec_collect_params(s, i + 3, pt.line, pt.column) {
            Ok((params, j)) => {
                lemma_collect_params_bounds(s, i + 3, pt.line, pt.column);
                lemma_collect_body_bounds(s, j + 1, 1, s[j as int].line, s[j as int].column);
            },
            Err(e) => {},
        }
    } else {
        lemma_collect_body_bounds(
            s, i + 3, 1, s[i + 2 as int].line, s[i + 2 as int].column);
    }
}

// ---------------------------------------------------------------------------
// Macro invocation: argument collection and expansion.

/// Argument tokens between the parentheses of a macro call, one token per
/// argument, starting at `i`.
pub open spec fn spec_collect_args(
    s: Seq<TokenView>,
    i: nat,
    pl: nat,
    pc: nat,
) -> Result<(Seq<TokenView>, nat), PreErrView>
    decreases s.len() - i,
    when i <= s.len()
{
    if i >= s.len() {
        Err(PreErrView::EOF { line: pl, column: pc })
    } else {
        let t = s[i as int];
        if t.kind == LexerTokenType::RParen {
            Ok((Seq::empty(), i + 1))
        } else if i + 1 >= s.len() {
            Err(PreErrView::EOF { line: t.line, column: t.column })
        } else {
            let nt = s[i + 1 as int];
            if nt.kind == LexerTokenType::Comma {
                match spec_collect_args(s, i + 2, nt.line, nt.column) {
                    Ok((rest, next)) => Ok((seq![t] + rest, next)),
                    Err(e) => Err(e),
                }
            } else if nt.kind == LexerTokenType::RParen {
                Ok((seq![t], i + 2))
            } else {
                Err(PreErrView::Lexer { line: nt.line, column: nt.column })
            }
        }
    }
}

pub proof fn lemma_collect_args_bounds(s: Seq<TokenView>, i: nat, pl: nat, pc: nat)
    requires
        i <= s.len(),
        spec_collect_args(s, i, pl, pc) is Ok,
    ensures
        i < spec_collect_args(s, i, pl, pc)->Ok_0.1 <= s.len(),
    decreases s.len() - i,
{
    if i < s.len() {
        let t = s[i as int];
        if t.kind != LexerTokenType::RParen && i + 1 < s.len()
            && s[i + 1 as int].kind == LexerTokenType::Comma {
            lemma_collect_args_bounds(s, i + 2, s[i + 1 as int].line, s[i + 1 as int].column);
        }
    }
}

/// The expansion of a macro body from index `j` on: an `Escaped` token whose
/// lexeme names a parameter becomes the corresponding argument token, every
/// other token passes through unchanged.
pub open spec fn spec_expand(
    m: MacroView,
    args: Seq<TokenView>,
    j: nat,
) -> Result<Seq<TokenView>, PreErrView>
    decreases m.body.len() - j,
    when j <= m.body.len()
{
    if j >= m.body.len() {
        Ok(Seq::empty())
    } else {
        let t = m.body[j as int];
        let head = if t.kind == LexerTokenType::Escaped {
            match spec_param_index(m.params, t.slice) {
                Some(k) => if k < args.len() {
                    Ok(args[k as int])
                } else {
                    Err(PreErrView::EOF { line: t.line, column: t.column })
                },
                None => Err(PreErrView::EOF { line: t.line, column: t.column }),
            }
        } else {
            Ok(t)
        };
        match head {
            Ok(h) => match spec_expand(m, args, j + 1) {
                Ok(rest) => Ok(seq![h] + rest),
                Err(e) => Err(e),
            },
            Err(e) => Err(e),
        }
    }
}

/// One macro invocation whose name token (at position `nl`/`nc`) has just
/// been consumed; `i` is the position after it.  Arguments are read when a
/// parenthesis follows; the count must match the definition.
pub open spec fn spec_call(
    s: Seq<TokenView>,
    i: nat,
    m: MacroView,
    nl: nat,
    nc: nat,
) -> Result<(Seq<TokenView>, nat), PreErrView>
    recommends
        i <= s.len(),
{
    if i < s.len() && s[i as int].kind == LexerTokenType::LParen {
        match spec_collect_args(s, i + 1, s[i as int].line, s[i as int].column) {
            Ok((args, next)) => {
                if args.len() != m.params.len() {
                    Err(PreErrView::ArgumentCount { line: nl, column: nc })
                } else {
                    match spec_expand(m, args, 0) {
                        Ok(ts) => Ok((ts, next)),
                        Err(e) => Err(e),
                    }
                }
            },
            Err(e) => Err(e),
        }
    } else {
        if m.params.len() != 0 {
            Err(PreErrView::ArgumentCount { line: nl, column: nc })
        } else {
            match spec_expand(m, Seq::empty(), 0) {
                Ok(ts) => Ok((ts, i)),
                Err(e) => Err(e),
            }
        }
    }
}

pub proof fn lemma_call_bounds(s: Seq<TokenView>, i: nat, m: MacroView, nl: nat, nc: nat)
    requires
        i <= s.len(),
        spec_call(s, i, m, nl, nc) is Ok,
    ensures
        i <= spec_call(s, i, m, nl, nc)->Ok_0.1 <= s.len(),
{
    if i < s.len() && s[i as int].kind == LexerTokenType::LParen {
        if spec_collect_args(s, i + 1, s[i as int].line, s[i as int].column) is Ok {
            lemma_collect_args_bounds(s, i + 1, s[i as int].line, s[i as int].column);
        }
    }
}

// ---------------------------------------------------------------------------
// The preprocessor proper.

/// The name of a preprocessor instruction token: its lexeme without the
/// leading percent sign.
pub open spec fn spec_instr_name(t: TokenView) -> Seq<char> {
    if t.slice.len() >= 1 {
        t.slice.subrange(1, t.slice.len() as int)
    } else {
        Seq::empty()
    }
}

/// The path inside a string token: its lexeme without the quotes.
pub open spec fn spec_string_text(t: TokenView) -> Seq<char> {
    if t.slice.len() >= 2 {
        t.slice.subrange(1, t.slice.len() - 1)
    } else {
        Seq::empty()
    }
}

/// The preprocessed form of the token stream `s` from position `i` on,
/// with macro environment `env`, include table `includes`, and `fuel`
/// nested includes still allowed.  Returns the rewritten stream and the
/// final environment.
pub open spec fn spec_preprocess(
    s: Seq<TokenView>,
    i: nat,
    env: Seq<(Seq<char>, MacroView)>,
    includes: Seq<(Seq<char>, Seq<char>)>,
    fuel: nat,
) -> Result<(Seq<TokenView>, Seq<(Seq<char>, MacroView)>), PreErrView>
    decreases fuel, s.len() - i,
    when i <= s.len()
    via spec_preprocess_decreases
{
    if i >= s.len() {
        Ok((Seq::empty(), env))
    } else {
        let t = s[i as int];
        if t.kind == LexerTokenType::PreprocessInstruction {
            if spec_instr_name(t) == "macro"@ {
                match spec_macro_def(s, i, env) {
                    Ok((env2, next)) => spec_preprocess(s, next, env2, includes, fuel),
                    Err(e) => Err(e),
                }
            } else if spec_instr_name(t) == "include"@ {
                let next: nat = if i + 2 <= s.len() { i + 2 } else { s.len() };
                match spec_include(s, i, includes, fuel) {
                    Ok(ts) => match spec_preprocess(s, next, env, includes, fuel) {
                        Ok((rest, envf)) => Ok((ts + rest, envf)),
                        Err(e) => Err(e),
                    },
                    Err(e) => Err(e),
                }
            } else {
                Err(PreErrView::UnknownInstruction { line: t.line, column: t.column })
            }
        } else if t.kind == LexerTokenType::Identifier {
            match spec_macro_lookup(env, t.slice) {
                None => match spec_preprocess(s, i + 1, env, includes, fuel) {
                    Ok((rest, envf)) => Ok((seq![t] + rest, envf)),
                    Err(e) => Err(e),
                },
                Some(m) => match spec_call(s, i + 1, m, t.line, t.column) {
                    Ok((ts, next)) => match spec_preprocess(s, next, env, includes, fuel) {
                        Ok((rest, envf)) => Ok((ts + rest, envf)),
                        Err(e) => Err(e),
                    },
                    Err(e) => Err(e),
                },
            }
        } else if t.kind == LexerTokenType::Comment {
            spec_preprocess(s, i + 1, env, includes, fuel)
        } else {
            match spec_preprocess(s, i + 1, env, includes, fuel) {
                Ok((rest, envf)) => Ok((seq![t] + rest, envf)),
                Err(e) => Err(e),
            }
        }
    }
}

/// One `%include` at position `i`: the bracketed token stream of the
/// included file, fully preprocessed with a fresh macro environment.
pub open spec fn spec_include(
    s: Seq<TokenView>,
    i: nat,
    includes: Seq<(Seq<char>, Seq<char>)>,
    fuel: nat,
) -> Result<Seq<TokenView>, PreErrView>
    decreases fuel, 0nat,
    when i < s.len()
{
    let t = s[i as int];
    if i + 1 >= s.len() {
        Err(PreErrView::EOF { line: t.line, column: t.column })
    } else {
        let st = s[i + 1 as int];
        if st.kind != LexerTokenType::String {
            Err(PreErrView::Lexer { line: st.line, column: st.column })
        } else {
            let path = spec_string_text(st);
            match spec_include_lookup(includes, path) {
                None => Err(PreErrView::MissingInclude { path, line: st.line, column: st.column }),
                Some(content) => {
                    if fuel == 0 {
                        Err(PreErrView::IncludeDepth { line: t.line, column: t.column })
                    } else if content.len() + 3 > usize::MAX {
                        Err(PreErrView::Lexer { line: st.line, column: st.column })
                    } else {
                        match spec_tokenize(content) {
                            Err((l, c)) => Err(PreErrView::Lexer { line: l, column: c }),
                            Ok(toks) => {
                                match spec_preprocess(toks, 0, Seq::empty(), includes,
                                    (fuel - 1) as nat) {
                                    Err(e) => Err(e),
                                    Ok((inner, _envf)) => {
                                        let enter = TokenView {
                                            kind: LexerTokenType::EnterInclude,
                                            slice: path,
                                            line: t.line,
                                            column: t.column,
                                        };
                                        let exit = TokenView {
                                            kind: LexerTokenType::ExitInclude,
                                            slice: path,
                                            line: t.line,
                                            column: t.column,
                                        };
                                        Ok(seq![enter] + inner + seq![exit])
                                    },
                                }
                            },
                        }
                    }
                },
            }
        }
    }
}

// ---------------------------------------------------------------------------
// Executable mirror of the specification.

fn collect_params(s: &[LexerToken], i: usize, pl: usize, pc: usize) -> (r: Result<
    (Vec<Vec<char>>, usize),
    PreprocessError,
>)
    requires
        i <= s@.len(),
    ensures
        match spec_collect_params(s.deep_view(), i as nat, pl as nat, pc as nat) {
            Ok((ps, next)) => r is Ok
                && crate::text::names_view(r->Ok_0.0@) == ps
                && r->Ok_0.1 == next,
            Err(e) => r is Err && r->Err_0.deep_view() == e,
        },
    decreases s@.len() - i,
{
    if i >= s.len() {
        return Err(PreprocessError::EOF { line: pl, column: pc });
    }
    let t = &s[i];
    if t.kind == LexerTokenType::RParen {
        let r: Vec<Vec<char>> = Vec::new();
        proof {
            assert(crate::text::names_view(r@) =~= Seq::<Seq<char>>::empty());
        }
        Ok((r, i + 1))
    } else if t.kind == LexerTokenType::Identifier {
        if i + 1 >= s.len() {
            return Err(PreprocessError::EOF { line: t.line, column: t.column });
        }
        let nt = &s[i + 1];
        if nt.kind == LexerTokenType::Comma {
            let (mut rest, next) = collect_params(s, i + 2, nt.line, nt.column)?;
            let ghost restv = crate::text::names_view(rest@);
            rest.insert(0, crate::text::clone_chars(&t.slice));
            proof {
                assert(crate::text::names_view(rest@) =~= seq![t.slice@] + restv);
            }
            Ok((rest, next))
        } else if nt.kind == LexerTokenType::RParen {
            let mut r: Vec<Vec<char>> = Vec::new();
            r.push(crate::text::clone_chars(&t.slice));
            proof {
                assert(crate::text::names_view(r@) =~= seq![t.slice@]);
            }
            Ok((r, i + 2))
        } else {
            Err(PreprocessError::Lexer { line: nt.line, column: nt.column })
        }
    } else {
        Err(PreprocessError::Lexer { line: t.line, column: t.column })
    }
}

fn collect_body(s: &[LexerToken], i: usize, depth: usize, pl: usize, pc: usize) -> (r: Result<
    (Vec<LexerToken>, usize),
    PreprocessError,
>)
    requires
        i <= s@.len(),
        1 <= depth <= i + 1,
        s@.len() + 3 <= usize::MAX,
    ensures
        match spec_collect_body(s.deep_view(), i as nat, depth as nat, pl as nat, pc as nat) {
            Ok((body, next)) => r is Ok
                && r->Ok_0.0.deep_view() == body
                && r->Ok_0.1 == next,
            Err(e) => r is Err && r->Err_0.deep_view() == e,
        },
    decreases s@.len() - i,
{
    if i >= s.len() {
        return Err(PreprocessError::EOF { line: pl, column: pc });
    }
    let t = &s[i];
    if t.kind == LexerTokenType::RBracket && depth == 1 {
        let r: Vec<LexerToken> = Vec::new();
        proof {
            assert(r.deep_view() =~= Seq::<TokenView>::empty());
        }
        Ok((r, i + 1))
    } else {
        let depth2: usize = if t.kind == LexerTokenType::RBracket {
            depth - 1
        } else if t.kind == LexerTokenType::LBracket {
            depth + 1
        } else {
            depth
        };
        let (mut rest, next) = collect_body(s, i + 1, depth2, pl, pc)?;
        if t.kind == LexerTokenType::Comment {
            Ok((rest, next))
        } else {
            let ghost restv = rest.deep_view();
            rest.insert(0, t.clone());
            proof {
                assert(rest.deep_view() =~= seq![t@] + restv);
            }
            Ok((rest, next))
        }
    }
}

/// Registers one `%macro` definition that starts at token `i`, and returns
/// the position after its closing brace.
pub fn macro_definition(macro_list: &mut Vec<(Vec<char>, Macro)>, s: &[LexerToken], i: usize) -> (r:
    Result<usize, PreprocessError>)
    requires
        i < s@.len(),
        s@.len() + 3 <= usize::MAX,
    ensures
        match spec_macro_def(s.deep_view(), i as nat, env_view(old(macro_list)@)) {
            Ok((env2, next)) => r is Ok && r->Ok_0 == next && env_view(final(macro_list)@) == env2,
            Err(e) => r is Err
                && (r->Err_0.deep_view() == e)
                && final(macro_list)@ == old(macro_list)@,
        },
{
    let t = &s[i];
    if i + 1 >= s.len() {
        return Err(PreprocessError::EOF { line: t.line, column: t.column });
    }
    let nt = &s[i + 1];
    if nt.kind != LexerTokenType::Identifier {
        return Err(PreprocessError::Lexer { line: nt.line, column: nt.column });
    }
    if i + 2 >= s.len() {
        return Err(PreprocessError::EOF { line: nt.line, column: nt.column });
    }
    let pt = &s[i + 2];
    let params: Vec<Vec<char>>;
    let j: usize;
    if pt.kind == LexerTokenType::LParen {
        let (ps, j2) = collect_params(s, i + 3, pt.line, pt.column)?;
        proof {
            lemma_collect_params_bounds(s.deep_view(), (i + 3) as nat, pt.line as nat, pt.column as nat);
        }
        params = ps;
        j = j2;
    } else {
        params = Vec::new();
        j = i + 2;
        proof {
            assert(crate::text::names_view(params@) =~= Seq::<Seq<char>>::empty());
        }
    }
    if j >= s.len() {
        return Err(PreprocessError::EOF { line: nt.line, column: nt.column });
    }
    let bt = &s[j];
    if bt.kind != LexerTokenType::LBracket {
        return Err(PreprocessError::Lexer { line: bt.line, column: bt.column });
    }
    let (body, next) = collect_body(s, j + 1, 1, bt.line, bt.column)?;
    if macro_find(macro_list, nt.slice.as_slice()).is_some() {
        return Err(PreprocessError::MacroRedefined { line: nt.line, column: nt.column });
    }
    let ghost envpre = env_view(macro_list@);
    let m = Macro { args: params, token_list: body };
    let ghost mv = m.deep_view();
    macro_list.push((crate::text::clone_chars(&nt.slice), m));
    proof {
        assert(env_view(macro_list@) =~= envpre.push((nt.slice@, mv)));
    }
    Ok(next)
}

/// Finds the registered macro with the given name.
fn macro_find(macro_list: &Vec<(Vec<char>, Macro)>, name: &[char]) -> (r: Option<usize>)
    ensures
        match spec_macro_lookup(env_view(macro_list@), name@) {
            Some(mv) => r is Some && r->Some_0 < macro_list@.len()
                && macro_list@[r->Some_0 as int].1.deep_view() == mv,
            None => r is None,
        },
{
    let ghost env = env_view(macro_list@);
    proof {
        assert(env.skip(0) =~= env);
    }
    let mut i: usize = 0;
    while i < macro_list.len()
        invariant
            i <= macro_list@.len(),
            env == env_view(macro_list@),
            env.len() == macro_list@.len(),
            spec_macro_lookup(env, name@) == spec_macro_lookup(env.skip(i as int), name@),
        decreases macro_list@.len() - i,
    {
        proof {
            assert(env.skip(i as int)[0] == env[i as int]);
            assert(env.skip(i as int).drop_first() =~= env.skip(i + 1));
        }
        if crate::text::eq_chars(macro_list[i].0.as_slice(), name) {
            return Some(i);
        }
        i = i + 1;
    }
    proof {
        assert(env.skip(i as int).len() == 0);
    }
    None
}

/// Finds the position of a name in a parameter list.
fn param_find(params: &Vec<Vec<char>>, name: &[char]) -> (r: Option<usize>)
    ensures
        match spec_param_index(crate::text::names_view(params@), name@) {
            Some(k) => r is Some && r->Some_0 == k,
            None => r is None,
        },
{
    let ghost ps = crate::text::names_view(params@);
    let mut i: usize = 0;
    while i < params.len()
        invariant
            i <= params@.len(),
            ps == crate::text::names_view(params@),
            ps.len() == params@.len(),
            forall|j: int| 0 <= j < i ==> ps[j] != name@,
        decreases params@.len() - i,
    {
        if crate::text::eq_chars(params[i].as_slice(), name) {
            proof {
                lemma_param_index_found(ps, name@, i as nat);
            }
            return Some(i);
        }
        i = i + 1;
    }
    proof {
        lemma_param_index_none(ps, name@);
    }
    None
}

proof fn lemma_param_index_found(ps: Seq<Seq<char>>, name: Seq<char>, k: nat)
    requires
        k < ps.len(),
        ps[k as int] == name,
        forall|j: int| 0 <= j < k ==> ps[j] != name,
    ensures
        spec_param_index(ps, name) == Some(k),
    decreases ps.len(),
{
    if ps.len() > 0 {
        if ps[0] == name {
        } else {
            lemma_param_index_found(ps.drop_first(), name, (k - 1) as nat);
        }
    }
}

proof fn lemma_param_index_none(ps: Seq<Seq<char>>, name: Seq<char>)
    requires
        forall|j: int| 0 <= j < ps.len() ==> ps[j] != name,
    ensures
        spec_param_index(ps, name) is None,
    decreases ps.len(),
{
    if ps.len() > 0 {
        lemma_param_index_none(ps.drop_first(), name);
    }
}

/// Expands a macro body against the given argument tokens.
fn expand(m: &Macro, args: &[LexerToken], j: usize) -> (r: Result<Vec<LexerToken>, PreprocessError>)
    requires
        j <= m.token_list@.len(),
    ensures
        match spec_expand(m.deep_view(), args.deep_view(), j as nat) {
            Ok(out) => r is Ok && r->Ok_0.deep_view() == out,
            Err(e) => r is Err && r->Err_0.deep_view() == e,
        },
    decreases m.token_list@.len() - j,
{
    if j >= m.token_list.len() {
        let r: Vec<LexerToken> = Vec::new();
        proof {
            assert(r.deep_view() =~= Seq::<TokenView>::empty());
        }
        return Ok(r);
    }
    let t = &m.token_list[j];
    let head: LexerToken;
    if t.kind == LexerTokenType::Escaped {
        match param_find(&m.args, t.slice.as_slice()) {
            Some(k) => {
                if k < args.len() {
                    head = args[k].clone();
                } else {
                    return Err(PreprocessError::EOF { line: t.line, column: t.column });
                }
            },
            None => {
                return Err(PreprocessError::EOF { line: t.line, column: t.column });
            },
        }
    } else {
        head = t.clone();
    }
    let ghost headv = head@;
    let mut rest = expand(m, args, j + 1)?;
    let ghost restv = rest.deep_view();
    rest.insert(0, head);
    proof {
        assert(rest.deep_view() =~= seq![headv] + restv);
    }
    Ok(rest)
}

fn collect_args(s: &[LexerToken], i: usize, pl: usize, pc: usize) -> (r: Result<
    (Vec<LexerToken>, usize),
    PreprocessError,
>)
    requires
        i <= s@.len(),
    ensures
        match spec_collect_args(s.deep_view(), i as nat, pl as nat, pc as nat) {
            Ok((args, next)) => r is Ok
                && r->Ok_0.0.deep_view() == args
                && r->Ok_0.1 == next,
            Err(e) => r is Err && r->Err_0.deep_view() == e,
        },
    decreases s@.len() - i,
{
    if i >= s.len() {
        return Err(PreprocessError::EOF { line: pl, column: pc });
    }
    let t = &s[i];
    if t.kind == LexerTokenType::RParen {
        let r: Vec<LexerToken> = Vec::new();
        proof {
            assert(r.deep_view() =~= Seq::<TokenView>::empty());
        }
        Ok((r, i + 1))
    } else if i + 1 >= s.len() {
        Err(PreprocessError::EOF { line: t.line, column: t.column })
    } else {
        let nt = &s[i + 1];
        if nt.kind == LexerTokenType::Comma {
            let (mut rest, next) = collect_args(s, i + 2, nt.line, nt.column)?;
            let ghost restv = rest.deep_view();
            rest.insert(0, t.clone());
            proof {
                assert(rest.deep_view() =~= seq![t@] + restv);
            }
            Ok((rest, next))
        } else if nt.kind == LexerTokenType::RParen {
            let mut r: Vec<LexerToken> = Vec::new();
            r.push(t.clone());
            proof {
                assert(r.deep_view() =~= seq![t@]);
            }
            Ok((r, i + 2))
        } else {
            Err(PreprocessError::Lexer { line: nt.line, column: nt.column })
        }
    }
}

/// Runs one macro invocation whose name token sits at `nl`/`nc`; `i` is the
/// position after the name.
fn call_macro(s: &[LexerToken], i: usize, m: &Macro, nl: usize, nc: usize) -> (r: Result<
    (Vec<LexerToken>, usize),
    PreprocessError,
>)
    requires
        i <= s@.len(),
    ensures
        match spec_call(s.deep_view(), i as nat, m.deep_view(), nl as nat, nc as nat) {
            Ok((ts, next)) => r is Ok
                && r->Ok_0.0.deep_view() == ts
                && r->Ok_0.1 == next,
            Err(e) => r is Err && r->Err_0.deep_view() == e,
        },
{
    if i < s.len() && s[i].kind == LexerTokenType::LParen {
        let (args, next) = collect_args(s, i + 1, s[i].line, s[i].column)?;
        if args.len() != m.args.len() {
            proof {
                assert(args.deep_view().len() == args@.len());
                assert(m.deep_view().params.len() == m.args@.len());
            }
            return Err(PreprocessError::ArgumentCount { line: nl, column: nc });
        }
        proof {
            assert(args.deep_view().len() == args@.len());
            assert(m.deep_view().params.len() == m.args@.len());
        }
        let ts = expand(m, args.as_slice(), 0)?;
        Ok((ts, next))
    } else {
        if m.args.len() != 0 {
            proof {
                assert(m.deep_view().params.len() == m.args@.len());
            }
            return Err(PreprocessError::ArgumentCount { line: nl, column: nc });
        }
        proof {
            assert(m.deep_view().params.len() == m.args@.len());
        }
        let empty: Vec<LexerToken> = Vec::new();
        proof {
            assert(empty.deep_view() =~= Seq::<TokenView>::empty());
        }
        let ts = expand(m, empty.as_slice(), 0)?;
        Ok((ts, i))
    }
}

/// Runs the preprocessor over a token slice with the given macro
/// environment and include budget.
#[verifier::loop_isolation(false)]
fn preprocess_run(
    included: &IncludeMap,
    macros: &mut Vec<(Vec<char>, Macro)>,
    s: &[LexerToken],
    fuel: usize,
) -> (r: Result<Vec<LexerToken>, PreprocessError>)
    requires
        s@.len() + 3 <= usize::MAX,
    ensures
        match spec_preprocess(s.deep_view(), 0, env_view(old(macros)@), included@, fuel as nat) {
            Ok((out, envf)) => r is Ok && r->Ok_0.deep_view() == out
                && env_view(final(macros)@) == envf,
            Err(e) => r is Err && r->Err_0.deep_view() == e,
        },
    decreases fuel, 1nat,
{
    let ghost sv = s.deep_view();
    let ghost env0 = env_view(macros@);
    let ghost inc = included@;
    let n = s.len();
    let mut out: Vec<LexerToken> = Vec::new();
    let mut i: usize = 0;
    proof {
        assert(out.deep_view() =~= Seq::<TokenView>::empty());
        lemma_prepend_empty(spec_preprocess(sv, 0, env0, inc, fuel as nat), out.deep_view());
    }
    while i < n
        invariant
            n == sv.len(),
            sv == s.deep_view(),
            inc == included@,
            n + 3 <= usize::MAX,
            i <= n,
            spec_preprocess(sv, 0, env0, inc, fuel as nat)
                == (match spec_preprocess(sv, i as nat, env_view(macros@), inc, fuel as nat) {
                    Ok((rest, envf)) => Ok::<_, PreErrView>((out.deep_view() + rest, envf)),
                    Err(e) => Err::<(Seq<TokenView>, Seq<(Seq<char>, MacroView)>), _>(e),
                }),
        decreases n - i,
    {
        let ghost pre = out.deep_view();
        let ghost envpre = env_view(macros@);
        let ghost i0 = i as nat;
        let t = &s[i];
        if t.kind == LexerTokenType::PreprocessInstruction {
            let name_len = t.slice.len();
            let is_macro = name_len >= 1 && crate::text::eq_str(
                vstd::slice::slice_subrange(t.slice.as_slice(), 1, name_len), "macro");
            let is_include = name_len >= 1 && crate::text::eq_str(
                vstd::slice::slice_subrange(t.slice.as_slice(), 1, name_len), "include");
            proof {
                reveal_strlit("macro");
                reveal_strlit("include");
                assert(sv[i0 as int] == t@);
                if name_len == 0 {
                    assert(spec_instr_name(t@).len() == 0);
                    assert("macro"@.len() == 5);
                    assert("include"@.len() == 7);
                } else {
                    assert(spec_instr_name(t@) == t.slice@.subrange(1, name_len as int));
                }
                assert(is_macro == (spec_instr_name(sv[i0 as int]) == "macro"@));
                assert(is_include == (spec_instr_name(sv[i0 as int]) == "include"@));
            }
            if is_macro {
                let next = macro_definition(macros, s, i)?;
                proof {
                    lemma_macro_def_bounds(sv, i0, envpre);
                }
                i = next;
            } else if is_include {
                let mut ts = run_include(included, s, i, fuel)?;
                let ghost tsv = ts.deep_view();
                out.append(&mut ts);
                proof {
                    assert(out.deep_view() =~= pre + tsv);
                }
                i = if i + 2 <= n { i + 2 } else { n };
                proof {
                    match spec_preprocess(sv, i as nat, env_view(macros@), inc, fuel as nat) {
                        Ok((rest, envf)) => {
                            assert(pre + (tsv + rest) =~= out.deep_view() + rest);
                        },
                        Err(e) => {},
                    }
                }
            } else {
                return Err(PreprocessError::UnknownInstruction { line: t.line, column: t.column });
            }
        } else if t.kind == LexerTokenType::Identifier {
            match macro_find(macros, t.slice.as_slice()) {
                None => {
                    out.push(t.clone());
                    i = i + 1;
                    proof {
                        assert(out.deep_view() =~= pre.push(sv[i0 as int]));
                        match spec_preprocess(sv, i as nat, env_view(macros@), inc, fuel as nat) {
                            Ok((rest, envf)) => {
                                assert(pre + (seq![sv[i0 as int]] + rest) =~= out.deep_view() + rest);
                            },
                            Err(e) => {},
                        }
                    }
                },
                Some(k) => {
                    let (mut ts, next) = call_macro(s, i + 1, &macros[k].1, t.line, t.column)?;
                    let ghost tsv = ts.deep_view();
                    out.append(&mut ts);
                    proof {
                        assert(out.deep_view() =~= pre + tsv);
                        lemma_call_bounds(sv, (i0 + 1) as nat, macros@[k as int].1.deep_view(),
                            t.line as nat, t.column as nat);
                    }
                    i = next;
                    proof {
                        match spec_preprocess(sv, i as nat, env_view(macros@), inc, fuel as nat) {
                            Ok((rest, envf)) => {
                                assert(pre + (tsv + rest) =~= out.deep_view() + rest);
                            },
                            Err(e) => {},
                        }
                    }
                },
            }
        } else if t.kind == LexerTokenType::Comment {
            i = i + 1;
        } else {
            out.push(t.clone());
            i = i + 1;
            proof {
                assert(out.deep_view() =~= pre.push(sv[i0 as int]));
                match spec_preprocess(sv, i as nat, env_view(macros@), inc, fuel as nat) {
                    Ok((rest, envf)) => {
                        assert(pre + (seq![sv[i0 as int]] + rest) =~= out.deep_view() + rest);
                    },
                    Err(e) => {},
                }
            }
        }
    }
    proof {
        assert(out.deep_view() + Seq::<TokenView>::empty() =~= out.deep_view());
    }
    Ok(out)
}

proof fn lemma_prepend_empty(
    r: Result<(Seq<TokenView>, Seq<(Seq<char>, MacroView)>), PreErrView>,
    outv: Seq<TokenView>,
)
    requires
        outv.len() == 0,
    ensures
        r == (match r {
            Ok((rest, envf)) => Ok::<_, PreErrView>((outv + rest, envf)),
            Err(e) => Err::<(Seq<TokenView>, Seq<(Seq<char>, MacroView)>), _>(e),
        }),
{
    match r {
        Ok((rest, envf)) => {
            assert(outv + rest =~= rest);
        },
        Err(e) => {},
    }
}

/// Handles one `%include`: looks the path up, tokenizes the content, and
/// preprocesses it with a fresh macro environment.
fn run_include(included: &IncludeMap, s: &[LexerToken], i: usize, fuel: usize) -> (r: Result<
    Vec<LexerToken>,
    PreprocessError,
>)
    requires
        i < s@.len(),
        s@.len() + 3 <= usize::MAX,
    ensures
        match spec_include(s.deep_view(), i as nat, included@, fuel as nat) {
            Ok(ts) => r is Ok && r->Ok_0.deep_view() == ts,
            Err(e) => r is Err && r->Err_0.deep_view() == e,
        },
    decreases fuel, 0nat,
{
    let t = &s[i];
    if i + 1 >= s.len() {
        return Err(PreprocessError::EOF { line: t.line, column: t.column });
    }
    let st = &s[i + 1];
    if st.kind != LexerTokenType::String {
        return Err(PreprocessError::Lexer { line: st.line, column: st.column });
    }
    let path: Vec<char> = if st.slice.len() >= 2 {
        vstd::slice::slice_to_vec(
            vstd::slice::slice_subrange(st.slice.as_slice(), 1, st.slice.len() - 1))
    } else {
        Vec::new()
    };
    proof {
        assert(path@ == spec_string_text(st@));
    }
    let content = match included.get(path.as_slice()) {
        Some(c) => c,
        None => {
            return Err(PreprocessError::MissingInclude {
                path,
                line: st.line,
                column: st.column,
            });
        },
    };
    if fuel == 0 {
        return Err(PreprocessError::IncludeDepth { line: t.line, column: t.column });
    }
    if content.len() > usize::MAX - 3 {
        return Err(PreprocessError::Lexer { line: st.line, column: st.column });
    }
    let toks = match tokenize(content.as_slice()) {
        Ok(ts) => ts,
        Err(e) => {
            let (l, c) = match e {
                LexerError::Lexer { line, column } => (line, column),
                LexerError::EOF { line, column } => (line, column),
            };
            return Err(PreprocessError::Lexer { line: l, column: c });
        },
    };
    proof {
        lemma_lex_len(content@, 0, 1, 0, false);
    }
    let mut inner_env: Vec<(Vec<char>, Macro)> = Vec::new();
    proof {
        assert(env_view(inner_env@) =~= Seq::<(Seq<char>, MacroView)>::empty());
    }
    let inner = preprocess_run(included, &mut inner_env, toks.as_slice(), fuel - 1)?;
    let mut result: Vec<LexerToken> = Vec::new();
    result.push(LexerToken {
        kind: LexerTokenType::EnterInclude,
        slice: crate::text::clone_chars(&path),
        line: t.line,
        column: t.column,
    });
    let ghost enterv = result.deep_view();
    let mut inner2 = inner;
    let ghost innerv = inner2.deep_view();
    result.append(&mut inner2);
    result.push(LexerToken {
        kind: LexerTokenType::ExitInclude,
        slice: path,
        line: t.line,
        column: t.column,
    });
    proof {
        let tv = s.deep_view()[i as int];
        let pathv = spec_string_text(s.deep_view()[i + 1 as int]);
        let enter = TokenView {
            kind: LexerTokenType::EnterInclude,
            slice: pathv,
            line: tv.line,
            column: tv.column,
        };
        let exit = TokenView {
            kind: LexerTokenType::ExitInclude,
            slice: pathv,
            line: tv.line,
            column: tv.column,
        };
        assert(result.deep_view() =~= seq![enter] + innerv + seq![exit]);
    }
    Ok(result)
}

/// The preprocessor: owns the include table and accumulates macro
/// definitions across one run.
pub struct Preprocessor {
    included: IncludeMap,
    macro_list: Vec<(Vec<char>, Macro)>,
}

impl Preprocessor {
    /// The macro environment registered so far.
    pub closed spec fn env(&self) -> Seq<(Seq<char>, MacroView)> {
        env_view(self.macro_list@)
    }

    /// The include table handed over at construction.
    pub closed spec fn includes(&self) -> Seq<(Seq<char>, Seq<char>)> {
        self.included@
    }

    /// A fresh preprocessor around an include table.
    pub fn new(included: IncludeMap) -> (r: Self)
        ensures
            r.env() == Seq::<(Seq<char>, MacroView)>::empty(),
            r.includes() == included@,
    {
        let r = Preprocessor { included, macro_list: Vec::new() };
        proof {
            assert(r.env() =~= Seq::<(Seq<char>, MacroView)>::empty());
        }
        r
    }

    /// Rewrites a token stream: registers and expands macros, splices
    /// included files, and drops comments.  The result is exactly what the
    /// preprocessing semantics assigns to the stream, or the first error.
    pub fn preprocess(&mut self, tokens: Vec<LexerToken>) -> (r: Result<
        Vec<LexerToken>,
        PreprocessError,
    >)
        requires
            tokens@.len() + 3 <= usize::MAX,
        ensures
            match spec_preprocess(tokens.deep_view(), 0, old(self).env(), old(self).includes(),
                INCLUDE_DEPTH as nat) {
                Ok((out, envf)) => r is Ok && r->Ok_0.deep_view() == out
                    && final(self).env() == envf,
                Err(e) => r is Err && r->Err_0.deep_view() == e,
            },
            final(self).includes() == old(self).includes(),
    {
        preprocess_run(&self.included, &mut self.macro_list, tokens.as_slice(), INCLUDE_DEPTH)
    }
}

#[via_fn]
proof fn spec_preprocess_decreases(
    s: Seq<TokenView>,
    i: nat,
    env: Seq<(Seq<char>, MacroView)>,
    includes: Seq<(Seq<char>, Seq<char>)>,
    fuel: nat,
) {
    if i < s.len() {
        let t = s[i as int];
        if t.kind == LexerTokenType::PreprocessInstruction {
            if spec_instr_name(t) == "macro"@ {
                if spec_macro_def(s, i, env) is Ok {
                    lemma_macro_def_bounds(s, i, env);
                }
            }
        } else if t.kind == LexerTokenType::Identifier {
            match spec_macro_lookup(env, t.slice) {
                Some(m) => {
                    if spec_call(s, i + 1, m, t.line, t.column) is Ok {
                        lemma_call_bounds(s, i + 1, m, t.line, t.column);
                    }
                },
                None => {},
            }
        }
    }
}

} // verus!
