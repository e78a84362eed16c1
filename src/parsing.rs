//! The shell's command-line tokenizer: quote and escape handling, the split
//! into command, flags and arguments, and the check for an open quote.
use vstd::prelude::*;
use crate::text::{chars_of, push_char, string_views};

verus! {

/// A parsed command line: the command, its flags one letter each, and its
/// positional arguments.
#[derive(Debug)]
pub struct Var {
    pub command: String,
    pub flags: Vec<String>,
    pub args: Vec<String>,
}

impl Var {
    /// An empty command line.
    pub fn new() -> (r: Var)
        ensures
            r.command@.len() == 0,
            r.flags@.len() == 0,
            r.args@.len() == 0,
    {
        Var { command: String::new(), flags: Vec::new(), args: Vec::new() }
    }
}

/// Whether a quote, single or double, is open at the end of a line.
#[derive(Clone, Copy, Debug, PartialEq, Eq, Structural)]
pub enum QuoteState {
    Closed,
    Single,
    Double,
}

pub open spec fn is_quote(c: char) -> bool {
    c == '\'' || c == '"'
}

/// `s` without its quote characters.
pub open spec fn unquoted(s: Seq<char>) -> Seq<char>
    decreases s.len(),
{
    if s.len() == 0 {
        seq![]
    } else if is_quote(s.last()) {
        unquoted(s.drop_last())
    } else {
        unquoted(s.drop_last()).push(s.last())
    }
}

/// One step of the quote scan: a backslash makes the next character plain;
/// a quote opens where none is open and closes its own kind.
pub open spec fn quote_step(st: (QuoteState, bool), c: char) -> (QuoteState, bool) {
    let (q, escape) = st;
    if escape {
        (q, false)
    } else if c == '\\' {
        (q, true)
    } else if c == '\'' && q == QuoteState::Closed {
        (QuoteState::Single, false)
    } else if c == '\'' && q == QuoteState::Single {
        (QuoteState::Closed, false)
    } else if c == '"' && q == QuoteState::Closed {
        (QuoteState::Double, false)
    } else if c == '"' && q == QuoteState::Double {
        (QuoteState::Closed, false)
    } else {
        (q, false)
    }
}

pub open spec fn quote_scan(s: Seq<char>) -> (QuoteState, bool)
    decreases s.len(),
{
    if s.len() == 0 {
        (QuoteState::Closed, false)
    } else {
        quote_step(quote_scan(s.drop_last()), s.last())
    }
}

/// `s` without its leading dashes.
pub open spec fn strip_dashes(s: Seq<char>) -> Seq<char>
    decreases s.len(),
{
    if s.len() > 0 && s[0] == '-' {
        strip_dashes(s.drop_first())
    } else {
        s
    }
}

/// Each character of `s` as a string of its own.
pub open spec fn singles(s: Seq<char>) -> Seq<Seq<char>> {
    Seq::new(s.len(), |j: int| seq![s[j]])
}

/// The letters of the first `k` flags, once the leading dashes of each are
/// taken off.
pub open spec fn letters_upto(flags: Seq<Seq<char>>, k: nat) -> Seq<char>
    decreases k,
{
    if k == 0 {
        seq![]
    } else {
        letters_upto(flags, (k - 1) as nat) + strip_dashes(flags[k - 1])
    }
}

/// The first occurrence of each character of `s`, in the order of those
/// first occurrences.
pub open spec fn first_occurrences(s: Seq<char>) -> Seq<char>
    decreases s.len(),
{
    if s.len() == 0 {
        seq![]
    } else {
        let d = first_occurrences(s.drop_last());
        if d.contains(s.last()) {
            d
        } else {
            d.push(s.last())
        }
    }
}

/// The flag letters that a command receives: each letter of the flags once,
/// where it first appears.
pub open spec fn flag_set(flags: Seq<Seq<char>>) -> Seq<char> {
    first_occurrences(letters_upto(flags, flags.len()))
}

/// No character stands twice in the first occurrences of `s`, and they hold
/// exactly the characters of `s`.
pub proof fn lemma_first_occurrences(s: Seq<char>)
    ensures
        forall|i: int, j: int|
            0 <= i < j < first_occurrences(s).len() ==> first_occurrences(s)[i]
                != first_occurrences(s)[j],
        forall|c: char| #[trigger] first_occurrences(s).contains(c) <==> s.contains(c),
    decreases s.len(),
{
    if s.len() > 0 {
        let p = s.drop_last();
        lemma_first_occurrences(p);
        assert(s =~= p.push(s.last()));
        let d = first_occurrences(p);
        let f = first_occurrences(s);
        assert forall|c: char| #[trigger] f.contains(c) <==> s.contains(c) by {
            if s.contains(c) {
                let i = choose|i: int| 0 <= i < s.len() && s[i] == c;
                if i < p.len() {
                    assert(p[i] == c);
                    assert(p.contains(c));
                    assert(d.contains(c));
                    let t = choose|t: int| 0 <= t < d.len() && d[t] == c;
                    assert(f[t] == c);
                } else if d.contains(c) {
                    let t = choose|t: int| 0 <= t < d.len() && d[t] == c;
                    assert(f[t] == c);
                } else {
                    assert(f[d.len() as int] == c);
                }
            }
            if f.contains(c) {
                let t = choose|t: int| 0 <= t < f.len() && f[t] == c;
                if t < d.len() {
                    assert(d[t] == c);
                    assert(d.contains(c));
                    assert(p.contains(c));
                    let i = choose|i: int| 0 <= i < p.len() && p[i] == c;
                    assert(s[i] == c);
                } else {
                    assert(s[s.len() - 1] == c);
                }
            }
        }
        if !d.contains(s.last()) {
            assert forall|i: int, j: int|
                0 <= i < j < first_occurrences(s).len() implies first_occurrences(s)[i]
                    != first_occurrences(s)[j] by {
                if j == d.len() {
                    assert(first_occurrences(s)[i] == d[i]);
                    if d[i] == s.last() {
                        assert(d.contains(s.last()));
                    }
                }
            }
        }
    }
}

/// The tokenizer's state: the tokens so far, the one being read, the open
/// quote, and whether the last character was an escaping backslash.
pub struct TokState {
    pub tokens: Seq<Seq<char>>,
    pub current: Seq<char>,
    pub quote: Option<char>,
    pub escape: bool,
}

pub open spec fn tok_step(st: TokState, c: char) -> TokState {
    if c == '\\' && !st.escape {
        TokState { escape: true, ..st }
    } else if is_quote(c) && !st.escape {
        if st.quote is None {
            TokState { quote: Some(c), ..st }
        } else if st.quote == Some(c) {
            TokState { quote: None, ..st }
        } else {
            TokState { current: st.current.push(c), ..st }
        }
    } else if st.escape {
        TokState { current: st.current.push(c), escape: false, ..st }
    } else if c == ' ' && st.quote is None {
        if st.current.len() > 0 {
            TokState { tokens: st.tokens.push(st.current), current: seq![], ..st }
        } else {
            st
        }
    } else {
        TokState { current: st.current.push(c), ..st }
    }
}

pub open spec fn tok_scan(s: Seq<char>) -> TokState
    decreases s.len(),
{
    if s.len() == 0 {
        TokState { tokens: seq![], current: seq![], quote: None, escape: false }
    } else {
        tok_step(tok_scan(s.drop_last()), s.last())
    }
}

/// The tokens of a line: words split at unquoted, unescaped spaces, with
/// the quotes that open and close a quoted part and the escaping
/// backslashes taken out.
pub open spec fn tokens_of(s: Seq<char>) -> Seq<Seq<char>> {
    let st = tok_scan(s);
    if st.current.len() > 0 {
        st.tokens.push(st.current)
    } else {
        st.tokens
    }
}

pub open spec fn is_flag_token(t: Seq<char>) -> bool {
    t.len() > 0 && t[0] == '-'
}

/// The flag tokens among `toks[1..k]`, unquoted.
pub open spec fn flag_tokens_upto(toks: Seq<Seq<char>>, k: nat) -> Seq<Seq<char>>
    decreases k,
{
    if k <= 1 {
        seq![]
    } else if is_flag_token(toks[k - 1]) {
        flag_tokens_upto(toks, (k - 1) as nat).push(unquoted(toks[k - 1]))
    } else {
        flag_tokens_upto(toks, (k - 1) as nat)
    }
}

/// The other tokens among `toks[1..k]`, unquoted.
pub open spec fn arg_tokens_upto(toks: Seq<Seq<char>>, k: nat) -> Seq<Seq<char>>
    decreases k,
{
    if k <= 1 {
        seq![]
    } else if is_flag_token(toks[k - 1]) {
        arg_tokens_upto(toks, (k - 1) as nat)
    } else {
        arg_tokens_upto(toks, (k - 1) as nat).push(unquoted(toks[k - 1]))
    }
}

/// `s` without its quote characters.
pub fn remove_all_quotes(s: &str) -> (r: String)
    ensures
        r@ == unquoted(s@),
{
    let cs = chars_of(s);
    let mut r = String::new();
    let mut i: usize = 0;
    while i < cs.len()
        invariant
            cs@ == s@,
            i <= cs@.len(),
            r@ == unquoted(s@.subrange(0, i as int)),
        decreases cs@.len() - i,
    {
        let c = cs[i];
        assert(s@.subrange(0, i + 1).drop_last() =~= s@.subrange(0, i as int));
        assert(s@.subrange(0, i + 1).last() == c);
        if c != '\'' && c != '"' {
            push_char(&mut r, c);
        }
        i = i + 1;
    }
    assert(s@.subrange(0, cs@.len() as int) =~= s@);
    r
}

/// The quote that is still open at the end of `s`.
pub fn quote_state(s: &str) -> (r: QuoteState)
    ensures
        r == quote_scan(s@).0,
{
    let cs = chars_of(s);
    let mut state = QuoteState::Closed;
    let mut escape = false;
    let mut i: usize = 0;
    while i < cs.len()
        invariant
            cs@ == s@,
            i <= cs@.len(),
            (state, escape) == quote_scan(s@.subrange(0, i as int)),
        decreases cs@.len() - i,
    {
        let c = cs[i];
        assert(s@.subrange(0, i + 1).drop_last() =~= s@.subrange(0, i as int));
        assert(s@.subrange(0, i + 1).last() == c);
        if escape {
            escape = false;
        } else if c == '\\' {
            escape = true;
        } else if c == '\'' && state == QuoteState::Closed {
            state = QuoteState::Single;
        } else if c == '\'' && state == QuoteState::Single {
            state = QuoteState::Closed;
        } else if c == '"' && state == QuoteState::Closed {
            state = QuoteState::Double;
        } else if c == '"' && state == QuoteState::Double {
            state = QuoteState::Closed;
        }
        i = i + 1;
    }
    assert(s@.subrange(0, cs@.len() as int) =~= s@);
    state
}

/// The letters of the flags, each as a string of its own, once the leading
/// dashes of each flag are taken off; a letter that came before is left out.
pub fn flatten_flags(flags: Vec<String>) -> (r: Vec<String>)
    ensures
        string_views(r@) == singles(flag_set(string_views(flags@))),
        forall|i: int, j: int| 0 <= i < j < r@.len() ==> r@[i]@ != r@[j]@,
{
    let ghost fs = string_views(flags@);
    let mut result: Vec<String> = Vec::new();
    let mut seen: Vec<char> = Vec::new();
    let mut k: usize = 0;
    while k < flags.len()
        invariant
            fs == string_views(flags@),
            k <= flags@.len(),
            seen@ == first_occurrences(letters_upto(fs, k as nat)),
            string_views(result@) == singles(seen@),
        decreases flags@.len() - k,
    {
        let cs = chars_of(flags[k].as_str());
        assert(cs@ == fs[k as int]);
        assert(cs@.skip(0) =~= cs@);
        let mut start: usize = 0;
        while start < cs.len() && cs[start] == '-'
            invariant
                k < fs.len(),
                cs@ == fs[k as int],
                start <= cs@.len(),
                strip_dashes(cs@.skip(start as int)) == strip_dashes(fs[k as int]),
            decreases cs@.len() - start,
        {
            assert(cs@.skip(start as int).drop_first() =~= cs@.skip(start + 1));
            start = start + 1;
        }
        let ghost rest = cs@.skip(start as int);
        let ghost base = letters_upto(fs, k as nat);
        assert(strip_dashes(rest) == rest);
        let mut j: usize = start;
        assert(base + rest.subrange(0, 0) =~= base);
        while j < cs.len()
            invariant
                k < fs.len(),
                cs@ == fs[k as int],
                start <= j <= cs@.len(),
                rest == cs@.skip(start as int),
                seen@ == first_occurrences(base + rest.subrange(0, j - start)),
                string_views(result@) == singles(seen@),
            decreases cs@.len() - j,
        {
            let c = cs[j];
            let ghost pre = base + rest.subrange(0, j - start);
            let ghost next = base + rest.subrange(0, j + 1 - start);
            assert(rest[j - start] == c);
            assert(next.drop_last() =~= pre);
            assert(next.last() == c);
            let mut found = false;
            let mut q: usize = 0;
            while q < seen.len()
                invariant
                    q <= seen@.len(),
                    found == (exists|t: int| 0 <= t < q && seen@[t] == c),
                decreases seen@.len() - q,
            {
                if seen[q] == c {
                    found = true;
                }
                q = q + 1;
            }
            if !found {
                let mut one = String::new();
                push_char(&mut one, c);
                assert(one@ =~= seq![c]);
                let ghost old_seen = seen@;
                let ghost old_views = string_views(result@);
                seen.push(c);
                result.push(one);
                assert(string_views(result@) =~= old_views.push(seq![c]));
                assert(singles(seen@) =~= singles(old_seen).push(seq![c]));
            }
            j = j + 1;
        }
        assert(rest.subrange(0, cs@.len() - start) =~= rest);
        assert(letters_upto(fs, (k + 1) as nat) == base + rest);
        k = k + 1;
    }
    proof {
        lemma_first_occurrences(letters_upto(fs, fs.len()));
        assert forall|i: int, j: int| 0 <= i < j < result@.len() implies result@[i]@ != result@[j]@ by {
            assert(string_views(result@)[i] == seq![seen@[i]]);
            assert(string_views(result@)[j] == seq![seen@[j]]);
            if result@[i]@ == result@[j]@ {
                assert(seq![seen@[i]][0] == seq![seen@[j]][0]);
            }
        }
    }
    result
}

/// The tokens of a command line.
pub fn tokenize(s: &str) -> (r: Vec<String>)
    ensures
        string_views(r@) == tokens_of(s@),
{
    let cs = chars_of(s);
    let mut tokens: Vec<String> = Vec::new();
    let mut current = String::new();
    let mut in_quotes: Option<char> = None;
    let mut escape = false;
    let mut i: usize = 0;
    assert(s@.subrange(0, 0).len() == 0);
    assert(string_views(tokens@) =~= Seq::<Seq<char>>::empty());
    assert(current@ =~= Seq::<char>::empty());
    while i < cs.len()
        invariant
            cs@ == s@,
            i <= cs@.len(),
            tok_scan(s@.subrange(0, i as int)) == (TokState {
                tokens: string_views(tokens@),
                current: current@,
                quote: in_quotes,
                escape,
            }),
        decreases cs@.len() - i,
    {
        let c = cs[i];
        assert(s@.subrange(0, i + 1).drop_last() =~= s@.subrange(0, i as int));
        assert(s@.subrange(0, i + 1).last() == c);
        if c == '\\' && !escape {
            escape = true;
        } else if (c == '"' || c == '\'') && !escape {
            if in_quotes.is_none() {
                in_quotes = Some(c);
            } else if in_quotes == Some(c) {
                in_quotes = None;
            } else {
                push_char(&mut current, c);
            }
        } else if escape {
            push_char(&mut current, c);
            escape = false;
        } else if c == ' ' && in_quotes.is_none() {
            if crate::text::char_count(current.as_str()) > 0 {
                let ghost was = string_views(tokens@);
                tokens.push(current);
                assert(string_views(tokens@) =~= was.push(tokens@.last()@));
                current = String::new();
            }
        } else {
            push_char(&mut current, c);
        }
        i = i + 1;
    }
    assert(s@.subrange(0, cs@.len() as int) =~= s@);
    if crate::text::char_count(current.as_str()) > 0 {
        let ghost was = string_views(tokens@);
        tokens.push(current);
        assert(string_views(tokens@) =~= was.push(tokens@.last()@));
    }
    tokens
}

/// The options of `rm`: `Some(false)` without flags, `Some(true)` for the
/// single flag `r`, and `None` for anything else, which is not supported.
pub fn rm_recursive(flags: &Vec<String>) -> (r: Option<bool>)
    ensures
        flags@.len() == 0 ==> r == Some(false),
        flags@.len() == 1 && flags@[0]@ == seq!['r'] ==> r == Some(true),
        flags@.len() > 0 && !(flags@.len() == 1 && flags@[0]@ == seq!['r']) ==> r is None,
{
    if flags.len() == 0 {
        return Some(false);
    }
    if flags.len() == 1 {
        let f = flags[0].as_str();
        if f.unicode_len() == 1 && f.get_char(0) == 'r' {
            assert(f@ =~= seq!['r']);
            return Some(true);
        }
    }
    None
}

/// Splits a complete command line into command, flags and arguments: the
/// first token is the command, tokens that start with `-` are flags, split
/// into their letters with each letter kept once, and the others are arguments; quotes are taken out of
/// each. An empty line gives an empty `Var`.
pub fn parse_command(input: &str) -> (r: Var)
    ensures
        tokens_of(input@).len() == 0 ==> r.command@.len() == 0 && r.flags@.len() == 0
            && r.args@.len() == 0,
        tokens_of(input@).len() > 0 ==> {
            let toks = tokens_of(input@);
            &&& r.command@ == unquoted(toks[0])
            &&& string_views(r.flags@) == singles(flag_set(flag_tokens_upto(toks, toks.len())))
            &&& string_views(r.args@) == arg_tokens_upto(toks, toks.len())
        },
{
    let tokens = tokenize(input);
    let ghost toks = string_views(tokens@);
    if tokens.len() == 0 {
        return Var::new();
    }
    let command = remove_all_quotes(tokens[0].as_str());
    let mut flags: Vec<String> = Vec::new();
    let mut args: Vec<String> = Vec::new();
    let mut k: usize = 1;
    while k < tokens.len()
        invariant
            toks == string_views(tokens@),
            1 <= k <= tokens@.len(),
            string_views(flags@) == flag_tokens_upto(toks, k as nat),
            string_views(args@) == arg_tokens_upto(toks, k as nat),
        decreases tokens@.len() - k,
    {
        let t = tokens[k].as_str();
        assert(toks[k as int] == t@);
        let is_flag = crate::text::char_count(t) > 0 && t.get_char(0) == '-';
        let u = remove_all_quotes(t);
        if is_flag {
            let ghost was = string_views(flags@);
            flags.push(u);
            assert(string_views(flags@) =~= was.push(unquoted(t@)));
        } else {
            let ghost was = string_views(args@);
            args.push(u);
            assert(string_views(args@) =~= was.push(unquoted(t@)));
        }
        k = k + 1;
    }
    let flags = flatten_flags(flags);
    Var { command, flags, args }
}

} // verus!
