//! The quote- and escape-aware tokenizer and the command classifier.
//!
//! Tokenization is modelled as a character-at-a-time state machine
//! (`lex_step` / `lex_run`); the executable tokenizer is proved to compute
//! exactly `tokens_of` on its input.  `None` from `tokens_of` is the
//! "incomplete" signal: the text ended inside a quote or with a pending
//! escape, and the caller should gather more input rather than report an
//! error.

use vstd::prelude::*;
use vstd::string::StrSliceExecFns;
use vstd::string::StringExecFns;
use crate::text::{is_space_char, is_space, to_char_vec, chars_to_string, trim_chars, trim_spec};

verus! {

/// The tokenizer's state between two characters: the finished tokens, the
/// token being built, and the quoting mode.
#[verifier::ext_equal]
pub struct LexState {
    pub args: Seq<Seq<char>>,
    pub cur: Seq<char>,
    pub in_single: bool,
    pub in_double: bool,
    pub escaped: bool,
}

/// The state before any character has been read.
pub open spec fn lex_init() -> LexState {
    LexState {
        args: Seq::empty(),
        cur: Seq::empty(),
        in_single: false,
        in_double: false,
        escaped: false,
    }
}

/// One character of tokenization.
///
/// Inside single quotes every character is literal until the closing quote.
/// Inside double quotes a backslash escapes `"` and `\` and is kept
/// verbatim before any other character; an unescaped `"` closes the quote.
/// Outside quotes a backslash escapes the next character, quotes open their
/// mode, and unquoted white space ends the current token.
pub open spec fn lex_step(st: LexState, c: char) -> LexState {
    if st.in_single {
        if c == '\'' {
            LexState { in_single: false, ..st }
        } else {
            LexState { cur: st.cur.push(c), ..st }
        }
    } else if st.in_double {
        if st.escaped {
            if c == '"' || c == '\\' {
                LexState { cur: st.cur.push(c), escaped: false, ..st }
            } else {
                LexState { cur: st.cur.push('\\').push(c), escaped: false, ..st }
            }
        } else if c == '\\' {
            LexState { escaped: true, ..st }
        } else if c == '"' {
            LexState { in_double: false, ..st }
        } else {
            LexState { cur: st.cur.push(c), ..st }
        }
    } else {
        if st.escaped {
            LexState { cur: st.cur.push(c), escaped: false, ..st }
        } else if c == '\\' {
            LexState { escaped: true, ..st }
        } else if c == '\'' {
            LexState { in_single: true, ..st }
        } else if c == '"' {
            LexState { in_double: true, ..st }
        } else if is_space_char(c) {
            if st.cur.len() > 0 {
                LexState { args: st.args.push(st.cur), cur: Seq::empty(), ..st }
            } else {
                st
            }
        } else {
            LexState { cur: st.cur.push(c), ..st }
        }
    }
}

/// Runs the tokenizer over a whole text from a given state.
pub open spec fn lex_run(st: LexState, s: Seq<char>) -> LexState
    decreases s.len(),
{
    if s.len() == 0 {
        st
    } else {
        lex_run(lex_step(st, s[0]), s.drop_first())
    }
}

/// Ends tokenization: inside a quote or with a pending escape the text is
/// incomplete; otherwise a non-empty token under construction is the last
/// token.
pub open spec fn lex_finish(st: LexState) -> Option<Seq<Seq<char>>> {
    if st.in_single || st.in_double || st.escaped {
        None
    } else if st.cur.len() > 0 {
        Some(st.args.push(st.cur))
    } else {
        Some(st.args)
    }
}

/// The tokens of a text, or `None` when the text is incomplete.
pub open spec fn tokens_of(s: Seq<char>) -> Option<Seq<Seq<char>>> {
    lex_finish(lex_run(lex_init(), s))
}

/// The views of a sequence of character vectors.
pub open spec fn char_views(ts: Seq<Vec<char>>) -> Seq<Seq<char>> {
    ts.map_values(|t: Vec<char>| t@)
}

/// The views of a sequence of strings.
pub open spec fn token_views(ts: Seq<String>) -> Seq<Seq<char>> {
    ts.map_values(|t: String| t@)
}

proof fn lemma_lex_run_snoc(st: LexState, s: Seq<char>, c: char)
    ensures
        lex_run(st, s.push(c)) == lex_step(lex_run(st, s), c),
    decreases s.len(),
{
    if s.len() == 0 {
        assert(s.push(c)[0] == c);
        assert(s.push(c).drop_first() =~= Seq::<char>::empty());
        assert(lex_run(st, s.push(c)) == lex_run(lex_step(st, c), s.push(c).drop_first()));
        assert(lex_run(lex_step(st, c), Seq::<char>::empty()) == lex_step(st, c));
    } else {
        assert(s.push(c)[0] == s[0]);
        assert(s.push(c).drop_first() =~= s.drop_first().push(c));
        assert(lex_run(st, s.push(c)) == lex_run(lex_step(st, s[0]), s.drop_first().push(c)));
        lemma_lex_run_snoc(lex_step(st, s[0]), s.drop_first(), c);
        assert(lex_run(st, s) == lex_run(lex_step(st, s[0]), s.drop_first()));
    }
}

fn lex_chars(v: &Vec<char>) -> (r: Option<Vec<Vec<char>>>)
    ensures
        match r {
            Some(ts) => tokens_of(v@) == Some(char_views(ts@)),
            None => tokens_of(v@) is None,
        },
{
    let mut args: Vec<Vec<char>> = Vec::new();
    let mut cur: Vec<char> = Vec::new();
    let mut in_single = false;
    let mut in_double = false;
    let mut escaped = false;
    let mut i: usize = 0;
    proof {
        assert(char_views(args@) =~= Seq::<Seq<char>>::empty());
        assert(v@.take(0) =~= Seq::<char>::empty());
    }
    while i < v.len()
        invariant
            i <= v.len(),
            lex_run(lex_init(), v@.take(i as int)) == (LexState {
                args: char_views(args@),
                cur: cur@,
                in_single,
                in_double,
                escaped,
            }),
        decreases v.len() - i,
    {
        let ghost st0 = LexState {
            args: char_views(args@),
            cur: cur@,
            in_single,
            in_double,
            escaped,
        };
        let c = v[i];
        if in_single {
            if c == '\'' {
                in_single = false;
            } else {
                cur.push(c);
            }
        } else if in_double {
            if escaped {
                if c == '"' || c == '\\' {
                    cur.push(c);
                } else {
                    cur.push('\\');
                    cur.push(c);
                }
                escaped = false;
            } else if c == '\\' {
                escaped = true;
            } else if c == '"' {
                in_double = false;
            } else {
                cur.push(c);
            }
        } else {
            if escaped {
                cur.push(c);
                escaped = false;
            } else if c == '\\' {
                escaped = true;
            } else if c == '\'' {
                in_single = true;
            } else if c == '"' {
                in_double = true;
            } else if is_space(c) {
                if cur.len() > 0 {
                    args.push(cur);
                    cur = Vec::new();
                    proof {
                        assert(char_views(args@) =~= st0.args.push(st0.cur));
                    }
                }
            } else {
                cur.push(c);
            }
        }
        proof {
            let st1 = LexState {
                args: char_views(args@),
                cur: cur@,
                in_single,
                in_double,
                escaped,
            };
            assert(st1 =~= lex_step(st0, c));
            lemma_lex_run_snoc(lex_init(), v@.take(i as int), c);
            assert(v@.take(i + 1) =~= v@.take(i as int).push(v@[i as int]));
        }
        i = i + 1;
    }
    proof {
        assert(v@.take(v@.len() as int) =~= v@);
    }
    if in_single || in_double || escaped {
        return None;
    }
    if cur.len() > 0 {
        let ghost pre = char_views(args@);
        args.push(cur);
        proof {
            assert(char_views(args@) =~= pre.push(cur@));
        }
    }
    Some(args)
}

/// Splits a command line into tokens following the quoting rules, or
/// reports that the text is incomplete (an unclosed quote or a trailing
/// escape), in which case the caller should gather more input.
pub fn parse_tokens(input: &str) -> (r: Result<Vec<String>, String>)
    ensures
        match r {
            Ok(ts) => tokens_of(input@) == Some(token_views(ts@)),
            Err(e) => tokens_of(input@) is None && e@ == "Incomplete"@,
        },
{
    let chars = to_char_vec(input);
    match lex_chars(&chars) {
        Some(toks) => {
            let mut out: Vec<String> = Vec::new();
            let mut i: usize = 0;
            proof {
                assert(token_views(out@) =~= char_views(toks@).take(0));
            }
            while i < toks.len()
                invariant
                    i <= toks.len(),
                    token_views(out@) == char_views(toks@).take(i as int),
                decreases toks.len() - i,
            {
                let s = chars_to_string(&toks[i]);
                proof {
                    assert(token_views(out@).len() == out@.len());
                    assert(char_views(toks@).take(i as int).len() == i as int);
                    assert(s@ == toks@[i as int]@);
                }
                out.push(s);
                i = i + 1;
                proof {
                    assert(out@[i - 1]@ == toks@[i - 1]@);
                    assert(token_views(out@) =~~= char_views(toks@).take(i as int));
                }
            }
            proof {
                assert(char_views(toks@).take(toks@.len() as int) =~= char_views(toks@));
            }
            Ok(out)
        },
        None => Err(String::from_str("Incomplete")),
    }
}

/// One character of the display-safe rewriting: a literal newline becomes
/// the two characters `\` `n`; every other character stays.
pub open spec fn escape_nl_char(c: char) -> Seq<char> {
    if c == '\n' {
        seq!['\\', 'n']
    } else {
        seq![c]
    }
}

/// The display-safe form of a token: literal newlines rewritten to `\n`.
pub open spec fn escape_nl(s: Seq<char>) -> Seq<char>
    decreases s.len(),
{
    if s.len() == 0 {
        Seq::empty()
    } else {
        escape_nl_char(s[0]) + escape_nl(s.drop_first())
    }
}

proof fn lemma_escape_nl_snoc(s: Seq<char>, c: char)
    ensures
        escape_nl(s.push(c)) == escape_nl(s) + escape_nl_char(c),
    decreases s.len(),
{
    if s.len() == 0 {
        assert(s.push(c)[0] == c);
        assert(s.push(c).drop_first() =~= Seq::<char>::empty());
        assert(escape_nl(Seq::<char>::empty()) == Seq::<char>::empty());
        assert(escape_nl(s.push(c)) =~= escape_nl(s) + escape_nl_char(c));
    } else {
        assert(s.push(c)[0] == s[0]);
        assert(s.push(c).drop_first() =~= s.drop_first().push(c));
        lemma_escape_nl_snoc(s.drop_first(), c);
        assert(escape_nl_char(s[0]) + (escape_nl(s.drop_first()) + escape_nl_char(c)) =~= (
        escape_nl_char(s[0]) + escape_nl(s.drop_first())) + escape_nl_char(c));
    }
}

/// Rewrites literal newlines to the visible two-character escape.
pub fn escape_newlines(v: &Vec<char>) -> (r: Vec<char>)
    ensures
        r@ == escape_nl(v@),
{
    let mut r: Vec<char> = Vec::new();
    let mut i: usize = 0;
    proof {
        assert(v@.take(0) =~= Seq::<char>::empty());
    }
    while i < v.len()
        invariant
            i <= v.len(),
            r@ == escape_nl(v@.take(i as int)),
        decreases v.len() - i,
    {
        let c = v[i];
        if c == '\n' {
            r.push('\\');
            r.push('n');
        } else {
            r.push(c);
        }
        proof {
            lemma_escape_nl_snoc(v@.take(i as int), c);
            assert(v@.take(i + 1) =~= v@.take(i as int).push(v@[i as int]));
            assert(r@ =~= escape_nl(v@.take(i as int)) + escape_nl_char(c));
        }
        i = i + 1;
    }
    proof {
        assert(v@.take(v@.len() as int) =~= v@);
    }
    r
}

/// Compares a token, held as characters, with a string slice.
pub fn str_eq_chars(t: &Vec<char>, kw: &str) -> (b: bool)
    ensures
        b == (t@ == kw@),
{
    let n = kw.unicode_len();
    if t.len() != n {
        return false;
    }
    let mut i: usize = 0;
    while i < n
        invariant
            i <= n,
            n == kw@.len(),
            t@.len() == n,
            forall|j: int| 0 <= j < i ==> t@[j] == kw@[j],
        decreases n - i,
    {
        if t[i] != kw.get_char(i) {
            return false;
        }
        i = i + 1;
    }
    proof {
        assert(t@ =~= kw@);
    }
    true
}

/// The outcome of reading one submitted line: a classified command, the
/// signal that the line is incomplete and needs a continuation, or a fatal
/// parse error (reserved; the present grammar never produces one).
#[derive(Debug, PartialEq)]
pub enum ParseResult {
    Parsed(CommandEnum),
    Incomplete,
    Fatal(String),
}

/// The closed set of command kinds, plus a catch-all carrying the
/// unrecognized command word.  Argument lists are carried raw (original
/// characters) or display-safe (newlines rewritten), as each command needs.
#[derive(Debug, PartialEq)]
pub enum CommandEnum {
    Rm(Vec<String>),
    Cp(Vec<String>),
    Mv(Vec<String>),
    Pwd,
    Cd(Vec<String>, Vec<String>),
    Echo(Vec<String>),
    Mkdir(Vec<String>, Vec<String>),
    Exit,
    Unknown(String),
    Cat(Vec<String>),
    Ls(Vec<String>),
    Clear,
}

/// Whether a first token names one of the built-in commands.
pub open spec fn is_builtin_name(t: Seq<char>) -> bool {
    ||| t == "ls"@
    ||| t == "cat"@
    ||| t == "cp"@
    ||| t == "pwd"@
    ||| t == "cd"@
    ||| t == "echo"@
    ||| t == "rm"@
    ||| t == "mkdir"@
    ||| t == "mv"@
    ||| t == "exit"@
    ||| t == "clear"@
}

/// Every text of a sequence rewritten to its display-safe form.
pub open spec fn escaped_views(ts: Seq<Seq<char>>) -> Seq<Seq<char>> {
    ts.map_values(|a: Seq<char>| escape_nl(a))
}

/// The display-safe argument list: every token after the first, with
/// newlines rewritten.
pub open spec fn clean_args_of(toks: Seq<Seq<char>>) -> Seq<Seq<char>> {
    escaped_views(toks.drop_first())
}

/// The raw argument list: every token after the first, unchanged.
pub open spec fn raw_args_of(toks: Seq<Seq<char>>) -> Seq<Seq<char>> {
    toks.drop_first()
}

/// Whether a classified command is the correct reading of a non-empty
/// token list.
pub open spec fn cmd_matches(cmd: CommandEnum, toks: Seq<Seq<char>>) -> bool
    recommends
        toks.len() > 0,
{
    match cmd {
        CommandEnum::Ls(a) => toks[0] == "ls"@ && token_views(a@) == clean_args_of(toks),
        CommandEnum::Cat(a) => toks[0] == "cat"@ && token_views(a@) == clean_args_of(toks),
        CommandEnum::Cp(a) => toks[0] == "cp"@ && token_views(a@) == clean_args_of(toks),
        CommandEnum::Pwd => toks[0] == "pwd"@,
        CommandEnum::Cd(clean, raw) => toks[0] == "cd"@ && token_views(clean@) == clean_args_of(
            toks,
        ) && token_views(raw@) == raw_args_of(toks),
        CommandEnum::Echo(a) => toks[0] == "echo"@ && token_views(a@) == raw_args_of(toks),
        CommandEnum::Rm(a) => toks[0] == "rm"@ && token_views(a@) == clean_args_of(toks),
        CommandEnum::Mkdir(raw, clean) => toks[0] == "mkdir"@ && token_views(raw@) == raw_args_of(
            toks,
        ) && token_views(clean@) == clean_args_of(toks),
        CommandEnum::Mv(a) => toks[0] == "mv"@ && token_views(a@) == clean_args_of(toks),
        CommandEnum::Exit => toks[0] == "exit"@,
        CommandEnum::Unknown(s) => s@ == toks[0] && !is_builtin_name(toks[0]),
        CommandEnum::Clear => toks[0] == "clear"@,
    }
}

/// Whether a parse outcome is the correct reading of the submitted text:
/// the text is trimmed, tokenized, and the first token classified; empty
/// or token-less text reads as the catch-all with an empty word; an
/// incomplete tokenization is the continuation signal; the fatal variant
/// never occurs.
pub open spec fn parse_input_matches(r: ParseResult, s: Seq<char>) -> bool {
    let t = trim_spec(s);
    match r {
        ParseResult::Parsed(cmd) => {
            if t.len() == 0 {
                cmd matches CommandEnum::Unknown(u) && u@ == Seq::<char>::empty()
            } else {
                match tokens_of(t) {
                    Some(toks) => {
                        if toks.len() == 0 {
                            cmd matches CommandEnum::Unknown(u) && u@ == Seq::<char>::empty()
                        } else {
                            cmd_matches(cmd, toks)
                        }
                    },
                    None => false,
                }
            }
        },
        ParseResult::Incomplete => t.len() > 0 && tokens_of(t) is None,
        ParseResult::Fatal(_) => false,
    }
}

/// Trims the submitted text, tokenizes it, and classifies the first token,
/// packaging the remaining tokens as raw and display-safe argument lists.
pub fn parse_input(input: &str) -> (r: ParseResult)
    ensures
        parse_input_matches(r, input@),
{
    let chars = to_char_vec(input);
    let trimmed = trim_chars(&chars);
    if trimmed.len() == 0 {
        return ParseResult::Parsed(CommandEnum::Unknown(String::new()));
    }
    match lex_chars(&trimmed) {
        None => ParseResult::Incomplete,
        Some(toks) => {
            if toks.len() == 0 {
                return ParseResult::Parsed(CommandEnum::Unknown(String::new()));
            }
            let ghost tv = char_views(toks@);
            let mut raw: Vec<String> = Vec::new();
            let mut clean: Vec<String> = Vec::new();
            let mut i: usize = 1;
            while i < toks.len()
                invariant
                    1 <= i <= toks.len(),
                    tv == char_views(toks@),
                    tv.len() == toks@.len(),
                    raw@.len() == i - 1,
                    clean@.len() == i - 1,
                    forall|j: int| 0 <= j < i - 1 ==> #[trigger] raw@[j]@ == tv[j + 1],
                    forall|j: int| 0 <= j < i - 1 ==> #[trigger] clean@[j]@ == escape_nl(
                        tv[j + 1],
                    ),
                decreases toks.len() - i,
            {
                let s = chars_to_string(&toks[i]);
                raw.push(s);
                let esc = escape_newlines(&toks[i]);
                let e = chars_to_string(&esc);
                clean.push(e);
                proof {
                    assert(tv[i as int] == toks@[i as int]@);
                    assert(raw@[i - 1]@ == tv[i as int]);
                    assert(clean@[i - 1]@ == escape_nl(tv[i as int]));
                }
                i = i + 1;
            }
            proof {
                assert(token_views(raw@) =~= raw_args_of(tv));
                assert(token_views(clean@) =~= clean_args_of(tv));
            }
            let first = &toks[0];
            let cmd = if str_eq_chars(first, "ls") {
                CommandEnum::Ls(clean)
            } else if str_eq_chars(first, "cat") {
                CommandEnum::Cat(clean)
            } else if str_eq_chars(first, "cp") {
                CommandEnum::Cp(clean)
            } else if str_eq_chars(first, "pwd") {
                CommandEnum::Pwd
            } else if str_eq_chars(first, "cd") {
                CommandEnum::Cd(clean, raw)
            } else if str_eq_chars(first, "echo") {
                CommandEnum::Echo(raw)
            } else if str_eq_chars(first, "rm") {
                CommandEnum::Rm(clean)
            } else if str_eq_chars(first, "mkdir") {
                CommandEnum::Mkdir(raw, clean)
            } else if str_eq_chars(first, "mv") {
                CommandEnum::Mv(clean)
            } else if str_eq_chars(first, "exit") {
                CommandEnum::Exit
            } else if str_eq_chars(first, "clear") {
                CommandEnum::Clear
            } else {
                CommandEnum::Unknown(chars_to_string(first))
            };
            ParseResult::Parsed(cmd)
        },
    }
}

/// Whether this character, read in this state, acts as a single-quote
/// delimiter: an opening quote in plain text or the closing quote of a
/// single-quoted span.  Quote characters that are escaped, or that sit
/// inside the other kind of quoting, do not act as delimiters.
pub open spec fn single_quote_delim(st: LexState, c: char) -> bool {
    if st.in_single {
        c == '\''
    } else if st.in_double {
        false
    } else {
        !st.escaped && c == '\''
    }
}

/// Whether this character, read in this state, acts as a double-quote
/// delimiter, in the same sense as `single_quote_delim`.
pub open spec fn double_quote_delim(st: LexState, c: char) -> bool {
    if st.in_single {
        false
    } else {
        !st.escaped && c == '"'
    }
}

/// How many characters of the text act as quote delimiters of the chosen
/// kind — the text's count of unescaped quote characters.
pub open spec fn delim_count_from(st: LexState, s: Seq<char>, single: bool) -> nat
    decreases s.len(),
{
    if s.len() == 0 {
        0
    } else {
        (if (if single {
            single_quote_delim(st, s[0])
        } else {
            double_quote_delim(st, s[0])
        }) {
            1nat
        } else {
            0nat
        }) + delim_count_from(lex_step(st, s[0]), s.drop_first(), single)
    }
}

/// The count of unescaped quote characters of one kind in a whole text.
pub open spec fn unescaped_quote_count(s: Seq<char>, single: bool) -> nat {
    delim_count_from(lex_init(), s, single)
}

proof fn lemma_quote_parity(st: LexState, s: Seq<char>)
    ensures
        lex_run(st, s).in_single == (st.in_single != (delim_count_from(st, s, true) % 2 == 1)),
        lex_run(st, s).in_double == (st.in_double != (delim_count_from(st, s, false) % 2 == 1)),
    decreases s.len(),
{
    if s.len() > 0 {
        lemma_quote_parity(lex_step(st, s[0]), s.drop_first());
    }
}

/// A text whose unescaped quote characters of either kind come out odd,
/// or that ends with an unresolved escape, tokenizes to the incomplete
/// signal, never to a token list.
pub proof fn lemma_incomplete_inputs(s: Seq<char>)
    ensures
        unescaped_quote_count(s, true) % 2 == 1 ==> tokens_of(s) is None,
        unescaped_quote_count(s, false) % 2 == 1 ==> tokens_of(s) is None,
        lex_run(lex_init(), s).escaped ==> tokens_of(s) is None,
{
    lemma_quote_parity(lex_init(), s);
}

/// A text tokenizes to a token list exactly when the machine ends outside
/// both kinds of quoting with no pending escape — balanced, correctly
/// escaped quoting succeeds and nothing else does.
pub proof fn lemma_complete_iff_balanced(s: Seq<char>)
    ensures
        tokens_of(s) is Some <==> {
            let st = lex_run(lex_init(), s);
            !st.in_single && !st.in_double && !st.escaped
        },
{
}

proof fn lemma_lex_run_append(st: LexState, s1: Seq<char>, s2: Seq<char>)
    ensures
        lex_run(st, s1 + s2) == lex_run(lex_run(st, s1), s2),
    decreases s1.len(),
{
    if s1.len() == 0 {
        assert(s1 + s2 =~= s2);
    } else {
        assert((s1 + s2).len() > 0);
        assert((s1 + s2)[0] == s1[0]);
        assert((s1 + s2).drop_first() =~= s1.drop_first() + s2);
        assert(lex_run(st, s1 + s2) == lex_run(lex_step(st, s1[0]), s1.drop_first() + s2));
        lemma_lex_run_append(lex_step(st, s1[0]), s1.drop_first(), s2);
        assert(lex_run(st, s1) == lex_run(lex_step(st, s1[0]), s1.drop_first()));
    }
}

/// Continuation law: when a first batch of input is incomplete, feeding a
/// newline and a second batch to the parse state left by the first batch
/// ends in exactly the state of tokenizing the concatenated text in one
/// shot — continuation is more input to the same parse, never a separate
/// parse.
pub proof fn lemma_continuation(s1: Seq<char>, s2: Seq<char>)
    requires
        tokens_of(s1) is None,
    ensures
        tokens_of(s1 + seq!['\n'] + s2) == lex_finish(
            lex_run(lex_run(lex_init(), s1), seq!['\n'] + s2),
        ),
{
    lemma_lex_run_append(lex_init(), s1, seq!['\n'] + s2);
    assert(s1 + (seq!['\n'] + s2) =~= s1 + seq!['\n'] + s2);
}


} // verus!
