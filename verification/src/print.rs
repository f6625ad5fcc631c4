//! Proofs as text: an indented tree for the console, and TeX markup for the
//! package `bussproofs`. Both number the markers in use in the same way.

use crate::inference::{Derivation, Inference, InferenceType, Rule};
use crate::text::lemma_appended;
use crate::TeX;
use vstd::prelude::*;
use vstd::string::StrSliceExecFns;
use vstd::string::StringExecFns;

verus! {

/// The decimal digits of `n`.
pub open spec fn decimal(n: nat) -> Seq<char>
    decreases n,
{
    if n < 10 {
        seq!["0123456789"@[n as int]]
    } else {
        decimal(n / 10).push("0123456789"@[(n % 10) as int])
    }
}

/// The number that stands for the marker `m`, seen from place `from` of the
/// list `live` on: one more than the first place at which `m` stands, and 0
/// where `m` is not in the list.
pub open spec fn label_from(live: Seq<usize>, m: usize, from: nat) -> nat
    decreases live.len() - from,
{
    if from >= live.len() {
        0
    } else if live[from as int] == m {
        from + 1
    } else {
        label_from(live, m, from + 1)
    }
}

/// The number that stands for the marker `m`: its place in the list of the
/// markers in use, counted from 1; 0 for a marker that is not in use.
pub open spec fn label_of(live: Seq<usize>, m: usize) -> nat {
    label_from(live, m, 0)
}

/// The lines of a premise: `text`, behind `indent` and `"+ "`.
pub open spec fn twig(indent: Seq<char>, text: Seq<char>) -> Seq<char> {
    indent + "+ "@ + text
}

impl Derivation {
    /// Whether the marker of the node is in use: the node has premises, and a
    /// use of an assumption among them refers to its marker.
    pub open spec fn live(self) -> bool {
        match self.rule {
            Rule::Axiom(_) => false,
            _ => self.uses(self.marker),
        }
    }

    /// The markers in use, in the order in which their nodes are printed:
    /// a node before its premises, the premises from first to last.
    pub open spec fn live_list(self) -> Seq<usize>
        decreases self,
    {
        let head = if self.live() {
            seq![self.marker]
        } else {
            Seq::empty()
        };
        match self.rule {
            Rule::Axiom(_) => head,
            Rule::Unary(a) => head + a.live_list(),
            Rule::Binary(a, b) => head + a.live_list() + b.live_list(),
            Rule::Ternary(a, b, c) => head + a.live_list() + b.live_list() + c.live_list(),
        }
    }

    /// What follows the conclusion on the line of a node: the number of the
    /// marker that the node's assumptions carry, where it is in use; for a
    /// use of an assumption, the number of the marker that it refers to.
    pub open spec fn note(self, live: Seq<usize>) -> Seq<char> {
        if self.live() {
            " : "@ + decimal(label_of(live, self.marker))
        } else {
            match self.rule {
                Rule::Axiom(m) => " from: "@ + decimal(label_of(live, m)),
                _ => Seq::empty(),
            }
        }
    }

    /// The line of a node: the conclusion in the console form, and the note.
    pub open spec fn line(self, live: Seq<usize>) -> Seq<char> {
        self.logic.spec_text() + self.note(live) + seq!['\n']
    }

    /// The tree below and with this node, one node on each line. The line of
    /// each premise begins with `indent` and `"+ "`; the lines below a
    /// premise begin with `indent` and `"| "`, below the last premise with
    /// `indent` and two blanks.
    pub open spec fn ascii(self, indent: Seq<char>, live: Seq<usize>) -> Seq<char>
        decreases self,
    {
        match self.rule {
            Rule::Axiom(_) => self.line(live),
            Rule::Unary(a) => self.line(live) + twig(indent, a.ascii(indent + "  "@, live)),
            Rule::Binary(a, b) => self.line(live) + twig(indent, a.ascii(indent + "| "@, live))
                + twig(indent, b.ascii(indent + "  "@, live)),
            Rule::Ternary(a, b, c) => self.line(live) + twig(
                indent,
                a.ascii(indent + "| "@, live),
            ) + twig(indent, b.ascii(indent + "| "@, live)) + twig(
                indent,
                c.ascii(indent + "  "@, live),
            ),
        }
    }

    /// The line that labels an inference with the number of its marker, where
    /// the marker is in use.
    pub open spec fn right_label(self, live: Seq<usize>) -> Seq<char> {
        if self.live() {
            "\\RightLabel{\\scriptsize "@ + decimal(label_of(live, self.marker)) + "}\n"@
        } else {
            Seq::empty()
        }
    }

    /// The conclusion in TeX markup, as the argument of a macro: in braces
    /// and in math mode, with a line break behind.
    pub open spec fn concluded(self) -> Seq<char> {
        "{$"@ + self.logic.spec_tex() + "$}\n"@
    }

    /// The label and the inference of a node: `name` is the macro of the
    /// inference.
    pub open spec fn inferred(self, name: Seq<char>, live: Seq<usize>) -> Seq<char> {
        self.right_label(live) + name + self.concluded()
    }

    /// The use of an assumption as TeX markup: the assumption in square
    /// brackets, with the number of the marker that it refers to.
    pub open spec fn assumed(self, m: usize, live: Seq<usize>) -> Seq<char> {
        "\\AxiomC{$["@ + self.logic.spec_tex() + "]_{"@ + decimal(label_of(live, m)) + "}$}\n"@
    }

    /// The tree below and with this node as TeX markup: the premises from
    /// first to last, then the label, then the inference.
    pub open spec fn bussproofs(self, live: Seq<usize>) -> Seq<char>
        decreases self,
    {
        match self.rule {
            Rule::Axiom(m) => self.assumed(m, live),
            Rule::Unary(a) => a.bussproofs(live) + self.inferred("\\UnaryInfC"@, live),
            Rule::Binary(a, b) => a.bussproofs(live) + b.bussproofs(live) + self.inferred(
                "\\BinaryInfC"@,
                live,
            ),
            Rule::Ternary(a, b, c) => a.bussproofs(live) + b.bussproofs(live) + c.bussproofs(live)
                + self.inferred("\\TrinaryInfC"@, live),
        }
    }

    /// The proof as an indented tree for the console.
    pub open spec fn spec_text(self) -> Seq<char> {
        self.ascii(Seq::empty(), self.live_list())
    }

    /// The proof as TeX markup.
    pub open spec fn spec_tex(self) -> Seq<char> {
        self.bussproofs(self.live_list())
    }
}

/// Where no marker is in use twice, the markers in use are numbered from 1
/// on in the order of the list.
pub proof fn lemma_labels_count_up(live: Seq<usize>, i: int)
    requires
        live.no_duplicates(),
        0 <= i < live.len(),
    ensures
        label_of(live, live[i]) == i + 1,
{
    lemma_label_from(live, i, 0);
}

/// A list that is made of two lists holds what either of them holds, and it
/// repeats nothing where neither repeats anything and they have nothing in
/// common.
proof fn lemma_joined(a: Seq<usize>, b: Seq<usize>)
    ensures
        forall|m: usize| (a + b).contains(m) <==> a.contains(m) || b.contains(m),
        a.no_duplicates() && b.no_duplicates() && (forall|m: usize|
            a.contains(m) ==> !b.contains(m)) ==> (a + b).no_duplicates(),
{
    assert forall|m: usize| (a + b).contains(m) <==> a.contains(m) || b.contains(m) by {
        if (a + b).contains(m) {
            let i = choose|i: int| 0 <= i < (a + b).len() && (a + b)[i] == m;
            if i < a.len() {
                assert(a[i] == m);
            } else {
                assert(b[i - a.len()] == m);
            }
        }
        if a.contains(m) {
            let i = choose|i: int| 0 <= i < a.len() && a[i] == m;
            assert((a + b)[i] == m);
        }
        if b.contains(m) {
            let i = choose|i: int| 0 <= i < b.len() && b[i] == m;
            assert((a + b)[a.len() + i] == m);
        }
    }
    if a.no_duplicates() && b.no_duplicates() && (forall|m: usize|
        a.contains(m) ==> !b.contains(m)) {
        assert forall|i: int, j: int| 0 <= i < a.len() && 0 <= j < b.len() implies a[i] != b[j] by {
            assert(a.contains(a[i]));
            assert(b.contains(b[j]));
        }
        vstd::seq_lib::lemma_no_dup_in_concat(a, b);
    }
}

/// Where no two nodes of a tree have the same marker, no marker stands twice
/// in the list of the markers in use, and each marker in the list is the
/// marker of a node.
pub proof fn lemma_live_list_distinct(d: Derivation)
    requires
        d.distinct(),
    ensures
        d.live_list().no_duplicates(),
        forall|m: usize| d.live_list().contains(m) ==> d.markers().contains(m),
    decreases d,
{
    let head: Seq<usize> = if d.live() {
        seq![d.marker]
    } else {
        Seq::empty()
    };
    assert(forall|m: usize| head.contains(m) ==> m == d.marker);
    match d.rule {
        Rule::Axiom(_) => {},
        Rule::Unary(a) => {
            lemma_live_list_distinct(*a);
            lemma_joined(head, a.live_list());
        },
        Rule::Binary(a, b) => {
            lemma_live_list_distinct(*a);
            lemma_live_list_distinct(*b);
            lemma_joined(head, a.live_list());
            lemma_joined(head + a.live_list(), b.live_list());
        },
        Rule::Ternary(a, b, c) => {
            lemma_live_list_distinct(*a);
            lemma_live_list_distinct(*b);
            lemma_live_list_distinct(*c);
            lemma_joined(head, a.live_list());
            lemma_joined(head + a.live_list(), b.live_list());
            lemma_joined(head + a.live_list() + b.live_list(), c.live_list());
        },
    }
}

/// The tree for the console and the TeX markup number the markers alike:
/// both are written with the one list of the markers in use. Where no two
/// nodes have the same marker, the marker at place `i` of the list is
/// written as `i + 1` in both, so the markers in use are numbered from 1 on
/// in the order in which their nodes are printed.
pub proof fn lemma_numbering_shared(d: Derivation, i: int)
    requires
        d.distinct(),
        0 <= i < d.live_list().len(),
    ensures
        d.spec_text() == d.ascii(Seq::empty(), d.live_list()),
        d.spec_tex() == d.bussproofs(d.live_list()),
        label_of(d.live_list(), d.live_list()[i]) == i + 1,
{
    lemma_live_list_distinct(d);
    lemma_labels_count_up(d.live_list(), i);
}

/// Seen from a place before `i`, the marker at `i` has the number `i + 1`.
proof fn lemma_label_from(live: Seq<usize>, i: int, from: nat)
    requires
        live.no_duplicates(),
        0 <= from <= i < live.len(),
    ensures
        label_from(live, live[i], from) == i + 1,
    decreases i - from,
{
    if from < i {
        lemma_label_from(live, i, from + 1);
    }
}

/// Appends the decimal digits of `n`.
fn write_decimal(n: usize, out: &mut String)
    ensures
        final(out)@ == old(out)@ + decimal(n as nat),
    decreases n,
{
    proof {
        reveal_strlit("0123456789");
    }
    if n >= 10 {
        write_decimal(n / 10, out);
    }
    let c = "0123456789".get_char(n % 10);
    out.push(c);
    assert(out@ =~= old(out)@ + decimal(n as nat));
}

/// The number that stands for the marker `m`.
fn label(live: &Vec<usize>, m: usize) -> (r: usize)
    ensures
        r == label_of(live@, m),
{
    let mut i: usize = 0;
    while i < live.len()
        invariant
            i <= live.len(),
            label_of(live@, m) == label_from(live@, m, i as nat),
        decreases live.len() - i,
    {
        if live[i] == m {
            return i + 1;
        }
        i = i + 1;
    }
    0
}

impl Inference {
    /// Whether some use of an assumption in the tree refers to the marker
    /// `m`.
    pub fn uses(&self, m: usize) -> (r: bool)
        ensures
            r == self@.uses(m),
        decreases *self,
    {
        match &self.inference {
            InferenceType::Axiom(r) => *r == m,
            InferenceType::UnaryInf(a) => a.uses(m),
            InferenceType::BinaryInf(a, b) => a.uses(m) || b.uses(m),
            InferenceType::TrinaryInf(a, b, c) => a.uses(m) || b.uses(m) || c.uses(m),
        }
    }

    /// Whether the marker of the node is in use.
    pub fn live(&self) -> (r: bool)
        ensures
            r == self@.live(),
    {
        match &self.inference {
            InferenceType::Axiom(_) => false,
            _ => self.uses(self.marker),
        }
    }

    /// Appends the markers in use, in the order in which their nodes are
    /// printed.
    fn note_live(&self, acc: &mut Vec<usize>)
        ensures
            final(acc)@ == old(acc)@ + self@.live_list(),
        decreases *self,
    {
        let ghost head = if self@.live() {
            seq![self.marker]
        } else {
            Seq::empty()
        };
        if self.live() {
            acc.push(self.marker);
        }
        assert(acc@ == old(acc)@ + head);
        match &self.inference {
            InferenceType::Axiom(_) => {},
            InferenceType::UnaryInf(a) => {
                a.note_live(acc);
                assert(acc@ =~= old(acc)@ + (head + a@.live_list()));
            },
            InferenceType::BinaryInf(a, b) => {
                a.note_live(acc);
                b.note_live(acc);
                assert(acc@ =~= old(acc)@ + (head + a@.live_list() + b@.live_list()));
            },
            InferenceType::TrinaryInf(a, b, c) => {
                a.note_live(acc);
                b.note_live(acc);
                c.note_live(acc);
                assert(acc@ =~= old(acc)@ + (head + a@.live_list() + b@.live_list()
                    + c@.live_list()));
            },
        }
    }

    /// The markers in use, in the order in which their nodes are printed.
    /// The marker at place `i` is printed as the number `i + 1`, in the tree
    /// for the console and in the TeX markup alike.
    pub fn numbering(&self) -> (r: Vec<usize>)
        ensures
            r@ == self@.live_list(),
    {
        let mut acc: Vec<usize> = Vec::new();
        self.note_live(&mut acc);
        acc
    }

    /// Appends the line of this node.
    fn write_line(&self, live: &Vec<usize>, out: &mut String)
        ensures
            final(out)@ == old(out)@ + self@.line(live@),
    {
        self.logic.write_text(false, out);
        if self.live() {
            out.append(" : ");
            write_decimal(label(live, self.marker), out);
        } else {
            match &self.inference {
                InferenceType::Axiom(m) => {
                    out.append(" from: ");
                    write_decimal(label(live, *m), out);
                },
                _ => {},
            }
        }
        assert(out@ =~= old(out)@ + (self@.logic.spec_text() + self@.note(live@)));
        out.push('\n');
        assert(out@ =~= old(out)@ + self@.line(live@));
    }

    /// Appends the line of a premise and the lines below it. The line begins
    /// with `indent` and `"+ "`, the lines below it with `indent` and `next`.
    fn write_branch(&self, indent: &str, next: &str, live: &Vec<usize>, out: &mut String)
        ensures
            final(out)@ == old(out)@ + twig(indent@, self@.ascii(indent@ + next@, live@)),
        decreases *self, 1nat,
    {
        out.append(indent);
        out.append("+ ");
        let deeper = String::from_str(indent).concat(next);
        self.print(out, deeper.as_str(), live);
        proof {
            lemma_appended(
                old(out)@,
                indent@,
                "+ "@,
                self@.ascii(indent@ + next@, live@),
                Seq::empty(),
            );
        }
    }

    /// Appends the tree below and with this node for the console.
    pub fn print(&self, tree: &mut String, indent: &str, live: &Vec<usize>)
        ensures
            final(tree)@ == old(tree)@ + self@.ascii(indent@, live@),
        decreases *self, 0nat,
    {
        self.write_line(live, tree);
        let ghost line = self@.line(live@);
        match &self.inference {
            InferenceType::Axiom(_) => {},
            InferenceType::UnaryInf(a) => {
                let ghost ta = twig(indent@, a@.ascii(indent@ + "  "@, live@));
                a.write_branch(indent, "  ", live, tree);
                proof {
                    lemma_appended(old(tree)@, line, ta, Seq::empty(), Seq::empty());
                }
            },
            InferenceType::BinaryInf(a, b) => {
                let ghost ta = twig(indent@, a@.ascii(indent@ + "| "@, live@));
                let ghost tb = twig(indent@, b@.ascii(indent@ + "  "@, live@));
                a.write_branch(indent, "| ", live, tree);
                b.write_branch(indent, "  ", live, tree);
                proof {
                    lemma_appended(old(tree)@, line, ta, tb, Seq::empty());
                }
            },
            InferenceType::TrinaryInf(a, b, c) => {
                let ghost ta = twig(indent@, a@.ascii(indent@ + "| "@, live@));
                let ghost tb = twig(indent@, b@.ascii(indent@ + "| "@, live@));
                let ghost tc = twig(indent@, c@.ascii(indent@ + "  "@, live@));
                a.write_branch(indent, "| ", live, tree);
                b.write_branch(indent, "| ", live, tree);
                c.write_branch(indent, "  ", live, tree);
                proof {
                    lemma_appended(old(tree)@, line, ta, tb, tc);
                }
            },
        }
    }

    /// Appends the label of this node, where its marker is in use.
    fn write_label(&self, live: &Vec<usize>, out: &mut String)
        ensures
            final(out)@ == old(out)@ + self@.right_label(live@),
    {
        if self.live() {
            out.append("\\RightLabel{\\scriptsize ");
            write_decimal(label(live, self.marker), out);
            out.append("}\n");
            proof {
                lemma_appended(
                    old(out)@,
                    "\\RightLabel{\\scriptsize "@,
                    decimal(label_of(live@, self.marker) as nat),
                    "}\n"@,
                    Seq::empty(),
                );
            }
        } else {
            assert(out@ =~= old(out)@ + Seq::<char>::empty());
        }
    }

    /// Appends the conclusion of this node as the argument of a macro.
    fn write_concluded(&self, out: &mut String)
        ensures
            final(out)@ == old(out)@ + self@.concluded(),
    {
        out.append("{$");
        self.logic.write_text(true, out);
        out.append("$}\n");
        proof {
            lemma_appended(old(out)@, "{$"@, self@.logic.spec_tex(), "$}\n"@, Seq::empty());
        }
    }

    /// Appends the label and the inference of this node: `name` is the macro
    /// of the inference.
    fn write_inference(&self, name: &str, live: &Vec<usize>, out: &mut String)
        ensures
            final(out)@ == old(out)@ + self@.inferred(name@, live@),
    {
        self.write_label(live, out);
        out.append(name);
        self.write_concluded(out);
        proof {
            lemma_appended(
                old(out)@,
                self@.right_label(live@),
                name@,
                self@.concluded(),
                Seq::empty(),
            );
        }
    }

    /// Appends the use of an assumption that refers to the marker `m`.
    fn write_assumed(&self, m: usize, live: &Vec<usize>, out: &mut String)
        ensures
            final(out)@ == old(out)@ + self@.assumed(m, live@),
    {
        out.append("\\AxiomC{$[");
        self.logic.write_text(true, out);
        out.append("]_{");
        write_decimal(label(live, m), out);
        out.append("}$}\n");
        proof {
            lemma_appended(
                old(out)@,
                "\\AxiomC{$["@,
                self@.logic.spec_tex(),
                "]_{"@,
                decimal(label_of(live@, m) as nat),
            );
            lemma_appended(
                old(out)@,
                "\\AxiomC{$["@ + self@.logic.spec_tex() + "]_{"@ + decimal(
                    label_of(live@, m) as nat,
                ),
                "}$}\n"@,
                Seq::empty(),
                Seq::empty(),
            );
        }
    }

    /// Appends the tree below and with this node as TeX markup.
    pub fn print_tex(&self, tree: &mut String, live: &Vec<usize>)
        ensures
            final(tree)@ == old(tree)@ + self@.bussproofs(live@),
        decreases *self,
    {
        match &self.inference {
            InferenceType::Axiom(m) => {
                self.write_assumed(*m, live, tree);
            },
            InferenceType::UnaryInf(a) => {
                let ghost end = self@.inferred("\\UnaryInfC"@, live@);
                a.print_tex(tree, live);
                self.write_inference("\\UnaryInfC", live, tree);
                proof {
                    lemma_appended(old(tree)@, a@.bussproofs(live@), end, Seq::empty(), Seq::empty());
                }
            },
            InferenceType::BinaryInf(a, b) => {
                let ghost end = self@.inferred("\\BinaryInfC"@, live@);
                a.print_tex(tree, live);
                b.print_tex(tree, live);
                self.write_inference("\\BinaryInfC", live, tree);
                proof {
                    lemma_appended(
                        old(tree)@,
                        a@.bussproofs(live@),
                        b@.bussproofs(live@),
                        end,
                        Seq::empty(),
                    );
                }
            },
            InferenceType::TrinaryInf(a, b, c) => {
                let ghost end = self@.inferred("\\TrinaryInfC"@, live@);
                a.print_tex(tree, live);
                b.print_tex(tree, live);
                c.print_tex(tree, live);
                self.write_inference("\\TrinaryInfC", live, tree);
                proof {
                    lemma_appended(
                        old(tree)@,
                        a@.bussproofs(live@),
                        b@.bussproofs(live@),
                        c@.bussproofs(live@),
                        end,
                    );
                }
            },
        }
    }

    /// The proof as an indented tree for the console: one node on each line,
    /// with the number of its marker where the marker is in use, and with
    /// the number that it refers to where it uses an assumption.
    pub fn to_string(&self) -> (r: String)
        ensures
            r@ == self@.spec_text(),
    {
        let live = self.numbering();
        let mut tree = String::new();
        proof {
            reveal_strlit("");
        }
        self.print(&mut tree, "", &live);
        assert(tree@ =~= self@.ascii(Seq::empty(), live@));
        tree
    }
}

impl TeX for Inference {
    /// The proof as TeX markup for the package `bussproofs`: the premises of
    /// an inference before the inference, and each marker in use as the
    /// number that the tree for the console gives it.
    fn tex(&self) -> (r: String)
        ensures
            r@ == self@.spec_tex(),
    {
        let live = self.numbering();
        let mut tree = String::new();
        self.print_tex(&mut tree, &live);
        assert(tree@ =~= self@.bussproofs(live@));
        tree
    }
}

} // verus!
