//! Formulas as text: TeX markup and the console form.

use crate::logic::{joined, Logic};
use crate::TeX;
use vstd::prelude::*;
use vstd::string::StringExecFns;

verus! {

/// What `std::string::String::push` does, as its documentation says:
/// it appends the character to the end of the string. The string after the
/// call is the string before it with `ch` behind its last character. This is
/// taken on trust.
pub assume_specification[ String::push ](s: &mut String, ch: char)
    ensures
        final(s)@ == old(s)@.push(ch),
;

/// `s` between round brackets.
pub open spec fn wrapped(s: Seq<char>) -> Seq<char> {
    seq!['('] + s + seq![')']
}

/// `s`, between round brackets where `bracket` holds.
pub open spec fn dressed(s: Seq<char>, bracket: bool) -> Seq<char> {
    if bracket {
        wrapped(s)
    } else {
        s
    }
}

/// The sign of a connective, as a TeX macro or as its character for the
/// console: `kind` counts the connectives from falsity (0) over negation,
/// conjunction and disjunction to implication (4).
pub open spec fn sign(kind: int, tex: bool) -> Seq<char> {
    if tex {
        if kind == 0 {
            "\\perp"@
        } else if kind == 1 {
            "\\lnot"@
        } else if kind == 2 {
            "\\land"@
        } else if kind == 3 {
            "\\lor"@
        } else {
            "\\to"@
        }
    } else {
        if kind == 0 {
            seq!['⊥']
        } else if kind == 1 {
            seq!['¬']
        } else if kind == 2 {
            seq!['∧']
        } else if kind == 3 {
            seq!['∨']
        } else {
            seq!['→']
        }
    }
}

/// The sign of a connective with a blank on either side.
pub open spec fn infix(kind: int, tex: bool) -> Seq<char> {
    seq![' '] + sign(kind, tex) + seq![' ']
}

/// The sign of negation with a blank behind it.
pub open spec fn prefix(tex: bool) -> Seq<char> {
    sign(1, tex) + seq![' ']
}

impl Logic {
    /// Whether the formula, as the operand at `left` or right of `parent`,
    /// stands in brackets. Atoms, falsity and negations never do; under an
    /// implication only an implication on the left does; under the other
    /// connectives every other formula does.
    pub open spec fn bracketed(self, parent: Logic, left: bool) -> bool {
        if parent is To {
            left && self is To
        } else {
            !(self is Base || self is Cont || self is Not)
        }
    }

    /// The formula as text, with TeX macros for the connectives or with their
    /// characters. An operand stands in brackets where [`Logic::bracketed`]
    /// says so.
    pub open spec fn rendered(self, tex: bool) -> Seq<char>
        decreases self,
    {
        match self {
            Logic::Base(c) => seq![c],
            Logic::Cont => sign(0, tex),
            Logic::Not(p) => prefix(tex) + dressed(p.rendered(tex), p.bracketed(self, true)),
            Logic::And(l, r) => dressed(l.rendered(tex), l.bracketed(self, true)) + infix(2, tex)
                + dressed(r.rendered(tex), r.bracketed(self, false)),
            Logic::Or(l, r) => dressed(l.rendered(tex), l.bracketed(self, true)) + infix(3, tex)
                + dressed(r.rendered(tex), r.bracketed(self, false)),
            Logic::To(l, r) => dressed(l.rendered(tex), l.bracketed(self, true)) + infix(4, tex)
                + dressed(r.rendered(tex), r.bracketed(self, false)),
        }
    }

    /// The formula in TeX markup.
    pub open spec fn spec_tex(self) -> Seq<char> {
        self.rendered(true)
    }

    /// The formula in the console form.
    pub open spec fn spec_text(self) -> Seq<char> {
        self.rendered(false)
    }
}

/// Appends the sign of a connective.
fn write_sign(kind: u8, tex: bool, out: &mut String)
    requires
        kind <= 4,
    ensures
        final(out)@ == old(out)@ + sign(kind as int, tex),
{
    if tex {
        if kind == 0 {
            out.append("\\perp");
        } else if kind == 1 {
            out.append("\\lnot");
        } else if kind == 2 {
            out.append("\\land");
        } else if kind == 3 {
            out.append("\\lor");
        } else {
            out.append("\\to");
        }
    } else {
        let c = if kind == 0 {
            '⊥'
        } else if kind == 1 {
            '¬'
        } else if kind == 2 {
            '∧'
        } else if kind == 3 {
            '∨'
        } else {
            '→'
        };
        out.push(c);
        assert(out@ == old(out)@ + seq![c]);
    }
}

/// Texts that were appended one after another make one text.
pub(crate) proof fn lemma_appended(
    o: Seq<char>,
    a: Seq<char>,
    b: Seq<char>,
    c: Seq<char>,
    d: Seq<char>,
)
    ensures
        o + a + b == o + (a + b),
        o + a + b + c == o + (a + b + c),
        o + a + b + c + d == o + (a + b + c + d),
{
    assert(o + a + b =~= o + (a + b));
    assert(o + a + b + c =~= o + (a + b + c));
    assert(o + a + b + c + d =~= o + (a + b + c + d));
}

/// Appends the sign of a connective with a blank on either side.
fn write_infix(kind: u8, tex: bool, out: &mut String)
    requires
        kind <= 4,
    ensures
        final(out)@ == old(out)@ + infix(kind as int, tex),
{
    out.push(' ');
    write_sign(kind, tex, out);
    out.push(' ');
    proof {
        lemma_appended(old(out)@, seq![' '], sign(kind as int, tex), seq![' '], Seq::empty());
    }
}

/// Appends the sign of negation with a blank behind it.
fn write_prefix(tex: bool, out: &mut String)
    ensures
        final(out)@ == old(out)@ + prefix(tex),
{
    write_sign(1, tex, out);
    out.push(' ');
    proof {
        lemma_appended(old(out)@, sign(1, tex), seq![' '], Seq::empty(), Seq::empty());
    }
}

impl Logic {
    /// Appends the formula as an operand, in brackets where `bracket` holds.
    fn write_operand(&self, bracket: bool, tex: bool, out: &mut String)
        ensures
            final(out)@ == old(out)@ + dressed(self.rendered(tex), bracket),
        decreases *self, 3nat,
    {
        if bracket {
            out.push('(');
            self.write_text(tex, out);
            out.push(')');
            proof {
                lemma_appended(old(out)@, seq!['('], self.rendered(tex), seq![')'], Seq::empty());
            }
        } else {
            self.write_text(tex, out);
        }
    }

    /// Appends the two operands of the connective `kind`, which make the
    /// formula `whole`, with the sign between them.
    fn write_pair(
        l: &Logic,
        r: &Logic,
        kind: u8,
        tex: bool,
        out: &mut String,
        Ghost(whole): Ghost<Logic>,
    )
        requires
            2 <= kind <= 4,
            whole == joined(kind as int, *l, *r),
        ensures
            final(out)@ == old(out)@ + whole.rendered(tex),
        decreases whole, 1nat,
    {
        let lb = if kind == 4 {
            l.is_to()
        } else {
            !l.is_low()
        };
        let rb = kind != 4 && !r.is_low();
        let ghost a = dressed(l.rendered(tex), l.bracketed(whole, true));
        let ghost b = dressed(r.rendered(tex), r.bracketed(whole, false));
        proof {
            match whole {
                Logic::And(x, y) => {
                    assert(*x == *l && *y == *r);
                },
                Logic::Or(x, y) => {
                    assert(*x == *l && *y == *r);
                },
                Logic::To(x, y) => {
                    assert(*x == *l && *y == *r);
                },
                _ => {},
            }
        }
        l.write_operand(lb, tex, out);
        write_infix(kind, tex, out);
        r.write_operand(rb, tex, out);
        proof {
            lemma_appended(old(out)@, a, infix(kind as int, tex), b, Seq::empty());
        }
    }

    /// Whether the formula is an implication.
    pub fn is_to(&self) -> (r: bool)
        ensures
            r == (self is To),
    {
        match self {
            Logic::To(_, _) => true,
            _ => false,
        }
    }

    /// Appends the formula as text: with TeX macros for the connectives
    /// where `tex` holds, else with their characters.
    pub fn write_text(&self, tex: bool, out: &mut String)
        ensures
            final(out)@ == old(out)@ + self.rendered(tex),
        decreases *self, 2nat,
    {
        match self {
            Logic::Base(c) => {
                out.push(*c);
            },
            Logic::Cont => write_sign(0, tex, out),
            Logic::Not(p) => {
                let ghost a = dressed(p.rendered(tex), p.bracketed(*self, true));
                write_prefix(tex, out);
                p.write_operand(!p.is_low(), tex, out);
                proof {
                    lemma_appended(old(out)@, prefix(tex), a, Seq::empty(), Seq::empty());
                }
            },
            Logic::And(l, r) => Logic::write_pair(l, r, 2, tex, out, Ghost(*self)),
            Logic::Or(l, r) => Logic::write_pair(l, r, 3, tex, out, Ghost(*self)),
            Logic::To(l, r) => Logic::write_pair(l, r, 4, tex, out, Ghost(*self)),
        }
    }

    /// The formula in the console form, with the characters `⊥ ¬ ∧ ∨ →` for
    /// the connectives.
    pub fn to_string(&self) -> (r: String)
        ensures
            r@ == self.spec_text(),
    {
        let mut out = String::new();
        self.write_text(false, &mut out);
        assert(out@ == self.rendered(false));
        out
    }
}

impl TeX for Logic {
    /// The formula in TeX markup, with the macros
    /// `\\perp \\lnot \\land \\lor \\to` for the connectives.
    fn tex(&self) -> (r: String)
        ensures
            r@ == self.spec_tex(),
    {
        let mut out = String::new();
        self.write_text(true, &mut out);
        assert(out@ == self.rendered(true));
        out
    }
}

} // verus!
