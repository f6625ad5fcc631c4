//! The grammar of formulas, with ordered choice:
//!
//! ```text
//! <base>  := A-Z
//! <cont>  := '\perp ' | 'cont' | '⊥'
//! <paren> := '(' ws <parse> ws ')'
//! <not>   := ( '\lnot ' | 'not' | '¬' ) ws <term>
//! <term>  := <base> | <cont> | <paren> | <not>
//! <and>   := <term> ws ( '\land ' | 'and' | '∧' ) ws ( <and> | <term> )
//! <or>    := <term> ws ( '\lor ' | 'or' | '∨' ) ws ( <or> | <term> )
//! <to>    := ( <and> | <or> | <term> ) ws ( '\to ' | 'to' | '→' ) ws <parse>
//! <parse> := <to> | <and> | <or> | <term>
//! ```
//!
//! `ws` is any run of blanks, tabs and line breaks. Of the alternatives of a
//! rule the first that fits is taken; where none fits, the failure of the
//! last is reported.

use crate::logic::{joined, Logic};
use vstd::prelude::*;
use vstd::string::StrSliceExecFns;
use vstd::string::StringExecFns;

verus! {

/// What was expected where the text does not fit the grammar.
#[derive(Debug, Clone, Copy, PartialEq, Eq, Structural)]
pub enum ErrorKind {
    /// The sign of a connective.
    Tag,
    /// A letter from `A` to `Z`.
    OneOf,
    /// A round bracket.
    Char,
}

/// Why a text is not a formula: the rest of the text at the place where it
/// stops fitting the grammar, and what was expected there.
#[derive(Debug)]
pub struct ParseLogicError {
    /// The text from the place of the failure on.
    pub input: String,
    /// What was expected there.
    pub code: ErrorKind,
}

/// A formula and the place behind it, or the place of a failure and what was
/// expected there.
pub type Parsed = Result<(Logic, nat), (nat, ErrorKind)>;

/// Blanks, tabs and line breaks.
pub open spec fn blank(c: char) -> bool {
    c == ' ' || c == '\t' || c == '\r' || c == '\n'
}

/// The first place from `at` on that holds no blank.
pub open spec fn skip_blanks(v: Seq<char>, at: nat) -> nat
    decreases v.len() - at,
{
    if at < v.len() && blank(v[at as int]) {
        skip_blanks(v, at + 1)
    } else {
        at
    }
}

/// The place behind the text `t`, where `t` stands at `at`.
pub open spec fn tag_at(v: Seq<char>, at: nat, t: Seq<char>) -> Option<nat> {
    if at + t.len() <= v.len() && v.subrange(at as int, (at + t.len()) as int) == t {
        Some(at + t.len())
    } else {
        None
    }
}

/// The place behind the first of the three texts that stands at `at`.
pub open spec fn sign_at(v: Seq<char>, at: nat, a: Seq<char>, b: Seq<char>, c: Seq<char>) -> Result<
    nat,
    (nat, ErrorKind),
> {
    if tag_at(v, at, a) is Some {
        Ok(tag_at(v, at, a)->0)
    } else if tag_at(v, at, b) is Some {
        Ok(tag_at(v, at, b)->0)
    } else if tag_at(v, at, c) is Some {
        Ok(tag_at(v, at, c)->0)
    } else {
        Err((at, ErrorKind::Tag))
    }
}

/// The place behind the sign of a connective and the blanks round it, which
/// begin at `at`: `kind` is 1 for negation, 2 for conjunction, 3 for
/// disjunction and 4 for implication. No blanks are skipped before the sign
/// of negation.
pub open spec fn connective_at(v: Seq<char>, at: nat, kind: int) -> Result<nat, (nat, ErrorKind)> {
    let p = if kind == 1 {
        at
    } else {
        skip_blanks(v, at)
    };
    let sign = if kind == 1 {
        sign_at(v, p, "\\lnot "@, "not"@, seq!['¬'])
    } else if kind == 2 {
        sign_at(v, p, "\\land "@, "and"@, seq!['∧'])
    } else if kind == 3 {
        sign_at(v, p, "\\lor "@, "or"@, seq!['∨'])
    } else {
        sign_at(v, p, "\\to "@, "to"@, seq!['→'])
    };
    match sign {
        Ok(q) => Ok(skip_blanks(v, q)),
        Err(e) => Err(e),
    }
}

/// `<base>`: a letter from `A` to `Z`.
pub open spec fn spec_base(v: Seq<char>, at: nat) -> Parsed {
    if at < v.len() && 'A' <= v[at as int] && v[at as int] <= 'Z' {
        Ok((Logic::Base(v[at as int]), at + 1))
    } else {
        Err((at, ErrorKind::OneOf))
    }
}

/// `<cont>`: a sign of falsity.
pub open spec fn spec_cont(v: Seq<char>, at: nat) -> Parsed {
    match sign_at(v, at, "\\perp "@, "cont"@, seq!['⊥']) {
        Ok(p) => Ok((Logic::Cont, p)),
        Err(e) => Err(e),
    }
}

/// Whether `p` is a place in `v` behind `at`.
pub open spec fn onward(v: Seq<char>, at: nat, p: nat) -> bool {
    at < p <= v.len()
}

/// `<paren>`: a formula in round brackets.
pub open spec fn spec_paren(v: Seq<char>, at: nat) -> Parsed
    decreases v.len() - at, 1nat,
{
    if at < v.len() && v[at as int] == '(' && onward(v, at, skip_blanks(v, at + 1)) {
        match spec_parse(v, skip_blanks(v, at + 1)) {
            Ok((f, p)) => {
                let q = skip_blanks(v, p);
                if q < v.len() && v[q as int] == ')' {
                    Ok((f, q + 1))
                } else {
                    Err((q, ErrorKind::Char))
                }
            },
            Err(e) => Err(e),
        }
    } else {
        Err((at, ErrorKind::Char))
    }
}

/// `<not>`: a sign of negation and a term.
pub open spec fn spec_not(v: Seq<char>, at: nat) -> Parsed
    decreases v.len() - at, 1nat,
{
    match connective_at(v, at, 1) {
        Ok(p) => if onward(v, at, p) {
            match spec_term(v, p) {
                Ok((f, q)) => Ok((Logic::Not(Box::new(f)), q)),
                Err(e) => Err(e),
            }
        } else {
            Err((at, ErrorKind::Tag))
        },
        Err(e) => Err(e),
    }
}

/// `<term>`: an atom, falsity, a formula in brackets, or a negation.
pub open spec fn spec_term(v: Seq<char>, at: nat) -> Parsed
    decreases v.len() - at, 2nat,
{
    if spec_base(v, at) is Ok {
        spec_base(v, at)
    } else if spec_cont(v, at) is Ok {
        spec_cont(v, at)
    } else if spec_paren(v, at) is Ok {
        spec_paren(v, at)
    } else {
        spec_not(v, at)
    }
}

/// `<and>` for `kind` 2 and `<or>` for `kind` 3: a term, the sign, and a
/// formula of the same rule or a term.
pub open spec fn spec_chain(v: Seq<char>, at: nat, kind: int) -> Parsed
    decreases v.len() - at, 3nat,
{
    match spec_term(v, at) {
        Ok((l, p)) => match connective_at(v, p, kind) {
            Ok(q) => if onward(v, at, q) {
                match spec_chain(v, q, kind) {
                    Ok((r, e)) => Ok((joined(kind, l, r), e)),
                    Err(_) => match spec_term(v, q) {
                        Ok((r, e)) => Ok((joined(kind, l, r), e)),
                        Err(e) => Err(e),
                    },
                }
            } else {
                Err((at, ErrorKind::Tag))
            },
            Err(e) => Err(e),
        },
        Err(e) => Err(e),
    }
}

/// `<and>`: a conjunction; it groups to the right.
pub open spec fn spec_and(v: Seq<char>, at: nat) -> Parsed {
    spec_chain(v, at, 2)
}

/// `<or>`: a disjunction; it groups to the right.
pub open spec fn spec_or(v: Seq<char>, at: nat) -> Parsed {
    spec_chain(v, at, 3)
}

/// The left side of an implication: a conjunction, a disjunction or a term.
pub open spec fn spec_left(v: Seq<char>, at: nat) -> Parsed
    decreases v.len() - at, 4nat,
{
    if spec_chain(v, at, 2) is Ok {
        spec_chain(v, at, 2)
    } else if spec_chain(v, at, 3) is Ok {
        spec_chain(v, at, 3)
    } else {
        spec_term(v, at)
    }
}

/// `<to>`: an implication; it groups to the right.
pub open spec fn spec_to(v: Seq<char>, at: nat) -> Parsed
    decreases v.len() - at, 5nat,
{
    match spec_left(v, at) {
        Ok((l, p)) => match connective_at(v, p, 4) {
            Ok(q) => if onward(v, at, q) {
                match spec_parse(v, q) {
                    Ok((r, e)) => Ok((joined(4, l, r), e)),
                    Err(e) => Err(e),
                }
            } else {
                Err((at, ErrorKind::Tag))
            },
            Err(e) => Err(e),
        },
        Err(e) => Err(e),
    }
}

/// `<parse>`: a formula.
pub open spec fn spec_parse(v: Seq<char>, at: nat) -> Parsed
    decreases v.len() - at, 6nat,
{
    if spec_to(v, at) is Ok {
        spec_to(v, at)
    } else if spec_chain(v, at, 2) is Ok {
        spec_chain(v, at, 2)
    } else if spec_chain(v, at, 3) is Ok {
        spec_chain(v, at, 3)
    } else {
        spec_term(v, at)
    }
}

/// A formula and the place behind it, or the place of a failure and what was
/// expected there.
pub type Reading = Result<(Logic, usize), (usize, ErrorKind)>;

/// The executable result stands for the mathematical one, and its place lies
/// in the text: behind `at` for a formula.
pub open spec fn reached(r: Reading, p: Parsed, v: Seq<char>, at: nat) -> bool {
    match (r, p) {
        (Ok((f, a)), Ok((g, b))) => f == g && a == b && onward(v, at, b),
        (Err((a, k)), Err((b, j))) => a == b && k == j && b <= v.len(),
        _ => false,
    }
}

/// The place of a sign stands for the mathematical one.
pub open spec fn signed(
    r: Result<usize, (usize, ErrorKind)>,
    p: Result<nat, (nat, ErrorKind)>,
    v: Seq<char>,
) -> bool {
    match (r, p) {
        (Ok(a), Ok(b)) => a == b && b <= v.len(),
        (Err((a, k)), Err((b, j))) => a == b && k == j && b <= v.len(),
        _ => false,
    }
}

/// The characters of a text.
pub fn chars(s: &str) -> (r: Vec<char>)
    ensures
        r@ == s@,
{
    let n = s.unicode_len();
    let mut v: Vec<char> = Vec::new();
    let mut i: usize = 0;
    while i < n
        invariant
            i <= n,
            n == s@.len(),
            v@ == s@.subrange(0, i as int),
        decreases n - i,
    {
        v.push(s.get_char(i));
        i = i + 1;
    }
    assert(v@ == s@);
    v
}

/// The first place from `at` on that holds no blank.
fn skip(v: &Vec<char>, at: usize) -> (r: usize)
    requires
        at <= v.len(),
    ensures
        r == skip_blanks(v@, at as nat),
        at <= r <= v.len(),
{
    let mut i: usize = at;
    while i < v.len() && (v[i] == ' ' || v[i] == '\t' || v[i] == '\r' || v[i] == '\n')
        invariant
            at <= i <= v.len(),
            skip_blanks(v@, at as nat) == skip_blanks(v@, i as nat),
        decreases v.len() - i,
    {
        i = i + 1;
    }
    i
}

/// The place behind the text `tag`, where it stands at `at`.
pub(crate) fn eat(v: &Vec<char>, at: usize, tag: &str) -> (r: Option<usize>)
    requires
        at <= v.len(),
    ensures
        match tag_at(v@, at as nat, tag@) {
            Some(p) => r == Some(p as usize) && p <= v.len(),
            None => r is None,
        },
{
    let n = tag.unicode_len();
    if n > v.len() - at {
        return None;
    }
    let mut i: usize = 0;
    while i < n
        invariant
            i <= n,
            n == tag@.len(),
            at + n <= v.len(),
            v@.subrange(at as int, at + i) == tag@.subrange(0, i as int),
        decreases n - i,
    {
        if v[at + i] != tag.get_char(i) {
            assert(v@.subrange(at as int, at + n)[i as int] != tag@[i as int]);
            return None;
        }
        assert(v@.subrange(at as int, at + i + 1) == v@.subrange(at as int, at + i).push(
            v@[at + i],
        ));
        assert(tag@.subrange(0, i + 1) == tag@.subrange(0, i as int).push(tag@[i as int]));
        i = i + 1;
    }
    assert(tag@.subrange(0, n as int) == tag@);
    Some(at + n)
}

/// The place behind the character `c`, where it stands at `at`.
fn eat_char(v: &Vec<char>, at: usize, c: char) -> (r: Option<usize>)
    requires
        at <= v.len(),
    ensures
        match tag_at(v@, at as nat, seq![c]) {
            Some(p) => r == Some(p as usize) && p <= v.len(),
            None => r is None,
        },
{
    if at < v.len() && v[at] == c {
        assert(v@.subrange(at as int, at + 1) == seq![c]);
        Some(at + 1)
    } else {
        if at < v.len() {
            assert(v@.subrange(at as int, at + 1)[0] != seq![c][0]);
        }
        None
    }
}

/// The place behind the first of the three signs that stands at `at`.
fn sign(v: &Vec<char>, at: usize, a: &str, b: &str, c: char) -> (r: Result<
    usize,
    (usize, ErrorKind),
>)
    requires
        at <= v.len(),
    ensures
        signed(r, sign_at(v@, at as nat, a@, b@, seq![c]), v@),
        a@.len() > 0 && b@.len() > 0 ==> (r matches Ok(p) ==> at < p),
{
    match eat(v, at, a) {
        Some(p) => Ok(p),
        None => match eat(v, at, b) {
            Some(p) => Ok(p),
            None => match eat_char(v, at, c) {
                Some(p) => Ok(p),
                None => Err((at, ErrorKind::Tag)),
            },
        },
    }
}

/// The place behind the sign of a connective and the blanks round it.
fn connective(v: &Vec<char>, at: usize, kind: u8) -> (r: Result<usize, (usize, ErrorKind)>)
    requires
        at <= v.len(),
        1 <= kind <= 4,
    ensures
        signed(r, connective_at(v@, at as nat, kind as int), v@),
        r matches Ok(p) ==> at < p,
{
    proof {
        reveal_strlit("\\lnot ");
        reveal_strlit("not");
        reveal_strlit("\\land ");
        reveal_strlit("and");
        reveal_strlit("\\lor ");
        reveal_strlit("or");
        reveal_strlit("\\to ");
        reveal_strlit("to");
    }
    let p = if kind == 1 {
        at
    } else {
        skip(v, at)
    };
    let q = if kind == 1 {
        sign(v, p, "\\lnot ", "not", '¬')
    } else if kind == 2 {
        sign(v, p, "\\land ", "and", '∧')
    } else if kind == 3 {
        sign(v, p, "\\lor ", "or", '∨')
    } else {
        sign(v, p, "\\to ", "to", '→')
    };
    match q {
        Ok(q) => Ok(skip(v, q)),
        Err(e) => Err(e),
    }
}

/// The formula that the connective `kind` makes of `l` and `r`.
fn join(kind: u8, l: Logic, r: Logic) -> (f: Logic)
    ensures
        f == joined(kind as int, l, r),
{
    if kind == 2 {
        Logic::And(Box::new(l), Box::new(r))
    } else if kind == 3 {
        Logic::Or(Box::new(l), Box::new(r))
    } else {
        Logic::To(Box::new(l), Box::new(r))
    }
}

/// `<base>` at `at`.
fn base_at(v: &Vec<char>, at: usize) -> (r: Reading)
    requires
        at <= v.len(),
    ensures
        reached(r, spec_base(v@, at as nat), v@, at as nat),
{
    if at < v.len() && 'A' <= v[at] && v[at] <= 'Z' {
        Ok((Logic::Base(v[at]), at + 1))
    } else {
        Err((at, ErrorKind::OneOf))
    }
}

/// `<cont>` at `at`.
fn cont_at(v: &Vec<char>, at: usize) -> (r: Reading)
    requires
        at <= v.len(),
    ensures
        reached(r, spec_cont(v@, at as nat), v@, at as nat),
{
    proof {
        reveal_strlit("\\perp ");
        reveal_strlit("cont");
    }
    match sign(v, at, "\\perp ", "cont", '⊥') {
        Ok(p) => Ok((Logic::Cont, p)),
        Err(e) => Err(e),
    }
}

/// `<paren>` at `at`.
fn paren_at(v: &Vec<char>, at: usize) -> (r: Reading)
    requires
        at <= v.len(),
    ensures
        reached(r, spec_paren(v@, at as nat), v@, at as nat),
    decreases v.len() - at, 1nat,
{
    if at < v.len() && v[at] == '(' {
        let (f, p) = parse_at(v, skip(v, at + 1))?;
        let q = skip(v, p);
        if q < v.len() && v[q] == ')' {
            Ok((f, q + 1))
        } else {
            Err((q, ErrorKind::Char))
        }
    } else {
        Err((at, ErrorKind::Char))
    }
}

/// `<not>` at `at`.
fn not_at(v: &Vec<char>, at: usize) -> (r: Reading)
    requires
        at <= v.len(),
    ensures
        reached(r, spec_not(v@, at as nat), v@, at as nat),
    decreases v.len() - at, 1nat,
{
    let p = connective(v, at, 1)?;
    let (f, q) = term_at(v, p)?;
    Ok((Logic::Not(Box::new(f)), q))
}

/// `<term>` at `at`.
fn term_at(v: &Vec<char>, at: usize) -> (r: Reading)
    requires
        at <= v.len(),
    ensures
        reached(r, spec_term(v@, at as nat), v@, at as nat),
    decreases v.len() - at, 2nat,
{
    match base_at(v, at) {
        Ok(r) => Ok(r),
        Err(_) => match cont_at(v, at) {
            Ok(r) => Ok(r),
            Err(_) => match paren_at(v, at) {
                Ok(r) => Ok(r),
                Err(_) => not_at(v, at),
            },
        },
    }
}

/// `<and>` or `<or>` at `at`.
fn chain_at(v: &Vec<char>, at: usize, kind: u8) -> (r: Reading)
    requires
        at <= v.len(),
        kind == 2 || kind == 3,
    ensures
        reached(r, spec_chain(v@, at as nat, kind as int), v@, at as nat),
    decreases v.len() - at, 3nat,
{
    let (l, p) = term_at(v, at)?;
    let q = connective(v, p, kind)?;
    match chain_at(v, q, kind) {
        Ok((r, e)) => Ok((join(kind, l, r), e)),
        Err(_) => {
            let (r, e) = term_at(v, q)?;
            Ok((join(kind, l, r), e))
        },
    }
}

/// The left side of an implication at `at`.
fn left_at(v: &Vec<char>, at: usize) -> (r: Reading)
    requires
        at <= v.len(),
    ensures
        reached(r, spec_left(v@, at as nat), v@, at as nat),
    decreases v.len() - at, 4nat,
{
    match chain_at(v, at, 2) {
        Ok(r) => Ok(r),
        Err(_) => match chain_at(v, at, 3) {
            Ok(r) => Ok(r),
            Err(_) => term_at(v, at),
        },
    }
}

/// `<to>` at `at`.
fn to_at(v: &Vec<char>, at: usize) -> (r: Reading)
    requires
        at <= v.len(),
    ensures
        reached(r, spec_to(v@, at as nat), v@, at as nat),
    decreases v.len() - at, 5nat,
{
    let (l, p) = left_at(v, at)?;
    let q = connective(v, p, 4)?;
    let (r, e) = parse_at(v, q)?;
    Ok((join(4, l, r), e))
}

/// `<parse>` at `at`.
fn parse_at(v: &Vec<char>, at: usize) -> (r: Reading)
    requires
        at <= v.len(),
    ensures
        reached(r, spec_parse(v@, at as nat), v@, at as nat),
    decreases v.len() - at, 6nat,
{
    match to_at(v, at) {
        Ok(r) => Ok(r),
        Err(_) => match chain_at(v, at, 2) {
            Ok(r) => Ok(r),
            Err(_) => match chain_at(v, at, 3) {
                Ok(r) => Ok(r),
                Err(_) => term_at(v, at),
            },
        },
    }
}

/// What a rule of the grammar makes of a text: the formula at the start of
/// the text with the rest of the text, or the failure.
pub type ParseResult<'a> = Result<(&'a str, Logic), ParseLogicError>;

/// The result on a text stands for the mathematical result on its
/// characters: the rest of the text begins behind the formula, and the
/// failure holds the text from its place on.
pub open spec fn reads(s: Seq<char>, r: ParseResult, p: Parsed) -> bool {
    match (r, p) {
        (Ok((rest, f)), Ok((g, q))) => f == g && q <= s.len() && rest@ == s.skip(q as int),
        (Err(e), Err((q, k))) => q <= s.len() && e.input@ == s.skip(q as int) && e.code == k,
        _ => false,
    }
}

/// Turns places in the text into the rest of the text.
fn finish<'a>(s: &'a str, step: Reading, Ghost(p): Ghost<Parsed>) -> (r: ParseResult<'a>)
    requires
        reached(step, p, s@, 0),
    ensures
        reads(s@, r, p),
{
    let n = s.unicode_len();
    match step {
        Ok((f, q)) => Ok((s.substring_char(q, n), f)),
        Err((q, code)) => Err(
            ParseLogicError { input: String::from_str(s.substring_char(q, n)), code },
        ),
    }
}

/// Reads an atom at the start of the text: a letter from `A` to `Z`.
pub fn base(s: &str) -> (r: ParseResult<'_>)
    ensures
        reads(s@, r, spec_base(s@, 0)),
{
    let v = chars(s);
    finish(s, base_at(&v, 0), Ghost(spec_base(s@, 0)))
}

/// Reads falsity at the start of the text.
pub fn cont(s: &str) -> (r: ParseResult<'_>)
    ensures
        reads(s@, r, spec_cont(s@, 0)),
{
    let v = chars(s);
    finish(s, cont_at(&v, 0), Ghost(spec_cont(s@, 0)))
}

/// Reads a formula in round brackets at the start of the text.
pub fn paren(s: &str) -> (r: ParseResult<'_>)
    ensures
        reads(s@, r, spec_paren(s@, 0)),
{
    let v = chars(s);
    finish(s, paren_at(&v, 0), Ghost(spec_paren(s@, 0)))
}

/// Reads a negation at the start of the text.
pub fn not(s: &str) -> (r: ParseResult<'_>)
    ensures
        reads(s@, r, spec_not(s@, 0)),
{
    let v = chars(s);
    finish(s, not_at(&v, 0), Ghost(spec_not(s@, 0)))
}

/// Reads an atom, falsity, a formula in brackets or a negation at the start
/// of the text.
pub fn term(s: &str) -> (r: ParseResult<'_>)
    ensures
        reads(s@, r, spec_term(s@, 0)),
{
    let v = chars(s);
    finish(s, term_at(&v, 0), Ghost(spec_term(s@, 0)))
}

/// Reads a conjunction at the start of the text.
pub fn and(s: &str) -> (r: ParseResult<'_>)
    ensures
        reads(s@, r, spec_and(s@, 0)),
{
    let v = chars(s);
    finish(s, chain_at(&v, 0, 2), Ghost(spec_and(s@, 0)))
}

/// Reads a disjunction at the start of the text.
pub fn or(s: &str) -> (r: ParseResult<'_>)
    ensures
        reads(s@, r, spec_or(s@, 0)),
{
    let v = chars(s);
    finish(s, chain_at(&v, 0, 3), Ghost(spec_or(s@, 0)))
}

/// Reads an implication at the start of the text.
pub fn to(s: &str) -> (r: ParseResult<'_>)
    ensures
        reads(s@, r, spec_to(s@, 0)),
{
    let v = chars(s);
    finish(s, to_at(&v, 0), Ghost(spec_to(s@, 0)))
}

/// Reads a formula at the start of the text. What follows the formula is
/// handed back unread.
pub fn parse(s: &str) -> (r: ParseResult<'_>)
    ensures
        reads(s@, r, spec_parse(s@, 0)),
{
    let v = chars(s);
    finish(s, parse_at(&v, 0), Ghost(spec_parse(s@, 0)))
}

impl Logic {
    /// The formula at the start of the text `s`.
    pub fn new(s: &str) -> (r: Result<Logic, ParseLogicError>)
        ensures
            match spec_parse(s@, 0) {
                Ok((f, _)) => r matches Ok(g) && g == f,
                Err((q, k)) => r matches Err(e) && q <= s@.len() && e.input@ == s@.skip(q as int)
                    && e.code == k,
            },
    {
        match parse(s) {
            Ok((_, f)) => Ok(f),
            Err(e) => Err(e),
        }
    }
}

impl std::str::FromStr for Logic {
    type Err = ParseLogicError;

    /// The formula at the start of the text `s`, as [`Logic::new`] reads it.
    fn from_str(s: &str) -> (r: Result<Self, Self::Err>)
        ensures
            match spec_parse(s@, 0) {
                Ok((f, _)) => r matches Ok(g) && g == f,
                Err((q, k)) => r matches Err(e) && q <= s@.len() && e.input@ == s@.skip(q as int)
                    && e.code == k,
            },
    {
        Logic::new(s)
    }
}

impl ParseLogicError {
    /// The failure in words.
    pub fn to_string(&self) -> (r: String)
        ensures
            r@ == self.message(),
    {
        let mut out = String::from_str("Parsing Error: ");
        match self.code {
            ErrorKind::Tag => out.append("Tag"),
            ErrorKind::OneOf => out.append("OneOf"),
            ErrorKind::Char => out.append("Char"),
        }
        out.append(" at: ");
        out.append(self.input.as_str());
        out
    }

    /// The failure in words: what was expected, and the text from its place
    /// on.
    pub open spec fn message(self) -> Seq<char> {
        "Parsing Error: "@ + (match self.code {
            ErrorKind::Tag => "Tag"@,
            ErrorKind::OneOf => "OneOf"@,
            ErrorKind::Char => "Char"@,
        }) + " at: "@ + self.input@
    }
}

} // verus!
