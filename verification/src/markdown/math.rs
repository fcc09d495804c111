//! A small LaTeX-to-HTML renderer for inline and display math.
use vstd::prelude::*;
use vstd::string::*;
use crate::escape::{encode_safe, escape_safe};
use crate::text::{
    chars_of, is_ascii_alpha, push_char, push_str, str_eq, string_from_range, trim, trim_seq,
};

verus! {

/// The character that a command such as `\alpha` stands for, if it is one of
/// the known commands.
pub open spec fn symbol_spec(cmd: Seq<char>) -> Option<Seq<char>> {
    if cmd == "alpha"@ {
        Some("α"@)
    } else if cmd == "beta"@ {
        Some("β"@)
    } else if cmd == "gamma"@ {
        Some("γ"@)
    } else if cmd == "delta"@ {
        Some("δ"@)
    } else if cmd == "epsilon"@ {
        Some("ε"@)
    } else if cmd == "theta"@ {
        Some("θ"@)
    } else if cmd == "lambda"@ {
        Some("λ"@)
    } else if cmd == "mu"@ {
        Some("μ"@)
    } else if cmd == "pi"@ {
        Some("π"@)
    } else if cmd == "sigma"@ {
        Some("σ"@)
    } else if cmd == "phi"@ {
        Some("φ"@)
    } else if cmd == "omega"@ {
        Some("ω"@)
    } else if cmd == "Gamma"@ {
        Some("Γ"@)
    } else if cmd == "Delta"@ {
        Some("Δ"@)
    } else if cmd == "Theta"@ {
        Some("Θ"@)
    } else if cmd == "Lambda"@ {
        Some("Λ"@)
    } else if cmd == "Pi"@ {
        Some("Π"@)
    } else if cmd == "Sigma"@ {
        Some("Σ"@)
    } else if cmd == "Phi"@ {
        Some("Φ"@)
    } else if cmd == "Omega"@ {
        Some("Ω"@)
    } else if cmd == "times"@ {
        Some("×"@)
    } else if cmd == "cdot"@ {
        Some("·"@)
    } else if cmd == "pm"@ {
        Some("±"@)
    } else if cmd == "le"@ {
        Some("≤"@)
    } else if cmd == "leq"@ {
        Some("≤"@)
    } else if cmd == "ge"@ {
        Some("≥"@)
    } else if cmd == "geq"@ {
        Some("≥"@)
    } else if cmd == "neq"@ {
        Some("≠"@)
    } else if cmd == "approx"@ {
        Some("≈"@)
    } else if cmd == "infty"@ {
        Some("∞"@)
    } else if cmd == "sum"@ {
        Some("∑"@)
    } else if cmd == "prod"@ {
        Some("∏"@)
    } else if cmd == "int"@ {
        Some("∫"@)
    } else if cmd == "partial"@ {
        Some("∂"@)
    } else if cmd == "nabla"@ {
        Some("∇"@)
    } else if cmd == "to"@ {
        Some("→"@)
    } else if cmd == "rightarrow"@ {
        Some("→"@)
    } else if cmd == "leftarrow"@ {
        Some("←"@)
    } else if cmd == "Rightarrow"@ {
        Some("⇒"@)
    } else if cmd == "Leftarrow"@ {
        Some("⇐"@)
    } else {
        None
    }
}

/// The LaTeX commands that stand for one symbol, each with the code point
/// of its symbol: Greek letters, operators, relations and arrows.
pub open spec fn latex_symbols() -> Seq<(Seq<char>, char)> {
    seq![
        ("alpha"@, '\u{3b1}'),
        ("beta"@, '\u{3b2}'),
        ("gamma"@, '\u{3b3}'),
        ("delta"@, '\u{3b4}'),
        ("epsilon"@, '\u{3b5}'),
        ("theta"@, '\u{3b8}'),
        ("lambda"@, '\u{3bb}'),
        ("mu"@, '\u{3bc}'),
        ("pi"@, '\u{3c0}'),
        ("sigma"@, '\u{3c3}'),
        ("phi"@, '\u{3c6}'),
        ("omega"@, '\u{3c9}'),
        ("Gamma"@, '\u{393}'),
        ("Delta"@, '\u{394}'),
        ("Theta"@, '\u{398}'),
        ("Lambda"@, '\u{39b}'),
        ("Pi"@, '\u{3a0}'),
        ("Sigma"@, '\u{3a3}'),
        ("Phi"@, '\u{3a6}'),
        ("Omega"@, '\u{3a9}'),
        ("times"@, '\u{d7}'),
        ("cdot"@, '\u{b7}'),
        ("pm"@, '\u{b1}'),
        ("le"@, '\u{2264}'),
        ("leq"@, '\u{2264}'),
        ("ge"@, '\u{2265}'),
        ("geq"@, '\u{2265}'),
        ("neq"@, '\u{2260}'),
        ("approx"@, '\u{2248}'),
        ("infty"@, '\u{221e}'),
        ("sum"@, '\u{2211}'),
        ("prod"@, '\u{220f}'),
        ("int"@, '\u{222b}'),
        ("partial"@, '\u{2202}'),
        ("nabla"@, '\u{2207}'),
        ("to"@, '\u{2192}'),
        ("rightarrow"@, '\u{2192}'),
        ("leftarrow"@, '\u{2190}'),
        ("Rightarrow"@, '\u{21d2}'),
        ("Leftarrow"@, '\u{21d0}'),
    ]
}

/// Whether a command name and symbol form an entry that renders as that
/// symbol: the lookup gives exactly the symbol, and the name is a run of
/// ASCII letters other than `frac` and `sqrt`.
pub open spec fn symbol_entry(name: Seq<char>, sym: char) -> bool {
    &&& symbol_spec(name) == Some(seq![sym])
    &&& name.len() > 0
    &&& forall|j: int| 0 <= j < name.len() ==> is_ascii_alpha(#[trigger] name[j])
    &&& name != "frac"@
    &&& name != "sqrt"@
}

/// Every command of the table looks up its own symbol.
#[verifier::rlimit(100)]
pub proof fn lemma_latex_symbols(k: int)
    requires
        0 <= k < latex_symbols().len(),
    ensures
        symbol_entry(latex_symbols()[k].0, latex_symbols()[k].1),
{
    reveal_strlit("Delta");
    reveal_strlit("Gamma");
    reveal_strlit("Lambda");
    reveal_strlit("Leftarrow");
    reveal_strlit("Omega");
    reveal_strlit("Phi");
    reveal_strlit("Pi");
    reveal_strlit("Rightarrow");
    reveal_strlit("Sigma");
    reveal_strlit("Theta");
    reveal_strlit("alpha");
    reveal_strlit("approx");
    reveal_strlit("beta");
    reveal_strlit("cdot");
    reveal_strlit("delta");
    reveal_strlit("epsilon");
    reveal_strlit("frac");
    reveal_strlit("gamma");
    reveal_strlit("ge");
    reveal_strlit("geq");
    reveal_strlit("infty");
    reveal_strlit("int");
    reveal_strlit("lambda");
    reveal_strlit("le");
    reveal_strlit("leftarrow");
    reveal_strlit("leq");
    reveal_strlit("mu");
    reveal_strlit("nabla");
    reveal_strlit("neq");
    reveal_strlit("omega");
    reveal_strlit("partial");
    reveal_strlit("phi");
    reveal_strlit("pi");
    reveal_strlit("pm");
    reveal_strlit("prod");
    reveal_strlit("rightarrow");
    reveal_strlit("sigma");
    reveal_strlit("sqrt");
    reveal_strlit("sum");
    reveal_strlit("theta");
    reveal_strlit("times");
    reveal_strlit("to");
    reveal_strlit("±");
    reveal_strlit("·");
    reveal_strlit("×");
    reveal_strlit("Γ");
    reveal_strlit("Δ");
    reveal_strlit("Θ");
    reveal_strlit("Λ");
    reveal_strlit("Π");
    reveal_strlit("Σ");
    reveal_strlit("Φ");
    reveal_strlit("Ω");
    reveal_strlit("α");
    reveal_strlit("β");
    reveal_strlit("γ");
    reveal_strlit("δ");
    reveal_strlit("ε");
    reveal_strlit("θ");
    reveal_strlit("λ");
    reveal_strlit("μ");
    reveal_strlit("π");
    reveal_strlit("σ");
    reveal_strlit("φ");
    reveal_strlit("ω");
    reveal_strlit("←");
    reveal_strlit("→");
    reveal_strlit("⇐");
    reveal_strlit("⇒");
    reveal_strlit("∂");
    reveal_strlit("∇");
    reveal_strlit("∏");
    reveal_strlit("∑");
    reveal_strlit("∞");
    reveal_strlit("∫");
    reveal_strlit("≈");
    reveal_strlit("≠");
    reveal_strlit("≤");
    reveal_strlit("≥");
        if k == 0 {
            assert(latex_symbols()[k] == ("alpha"@, '\u{3b1}'));
            assert("alpha"@.len() == 5);
            assert("alpha"@[0] == 'a');
            assert("alpha"@[1] == 'l');
            assert("alpha"@[2] == 'p');
            assert("alpha"@[3] == 'h');
            assert("alpha"@[4] == 'a');
            assert("frac"@.len() == 4);
            assert("sqrt"@.len() == 4);
            assert("α"@ =~= seq!['\u{3b1}']);
            assert forall|j: int| 0 <= j < 5 implies is_ascii_alpha(#[trigger] "alpha"@[j]) by {
                if j == 0 {} else if j == 1 {} else if j == 2 {} else if j == 3 {} else if j == 4 {}
            }
        } else if k == 1 {
            assert(latex_symbols()[k] == ("beta"@, '\u{3b2}'));
            assert("beta"@.len() == 4);
            assert("beta"@[0] == 'b');
            assert("beta"@[1] == 'e');
            assert("beta"@[2] == 't');
            assert("beta"@[3] == 'a');
            assert("alpha"@.len() == 5);
            assert("frac"@[0] == 'f');
            assert("frac"@ != "beta"@);
            assert("sqrt"@[0] == 's');
            assert("sqrt"@ != "beta"@);
            assert("β"@ =~= seq!['\u{3b2}']);
            assert forall|j: int| 0 <= j < 4 implies is_ascii_alpha(#[trigger] "beta"@[j]) by {
                if j == 0 {} else if j == 1 {} else if j == 2 {} else if j == 3 {}
            }
        } else if k == 2 {
            assert(latex_symbols()[k] == ("gamma"@, '\u{3b3}'));
            assert("gamma"@.len() == 5);
            assert("gamma"@[0] == 'g');
            assert("gamma"@[1] == 'a');
            assert("gamma"@[2] == 'm');
            assert("gamma"@[3] == 'm');
            assert("gamma"@[4] == 'a');
            assert("alpha"@[0] == 'a');
            assert("alpha"@ != "gamma"@);
            assert("beta"@.len() == 4);
            assert("frac"@.len() == 4);
            assert("sqrt"@.len() == 4);
            assert("γ"@ =~= seq!['\u{3b3}']);
            assert forall|j: int| 0 <= j < 5 implies is_ascii_alpha(#[trigger] "gamma"@[j]) by {
                if j == 0 {} else if j == 1 {} else if j == 2 {} else if j == 3 {} else if j == 4 {}
            }
        } else if k == 3 {
            assert(latex_symbols()[k] == ("delta"@, '\u{3b4}'));
            assert("delta"@.len() == 5);
            assert("delta"@[0] == 'd');
            assert("delta"@[1] == 'e');
            assert("delta"@[2] == 'l');
            assert("delta"@[3] == 't');
            assert("delta"@[4] == 'a');
            assert("alpha"@[0] == 'a');
            assert("alpha"@ != "delta"@);
            assert("beta"@.len() == 4);
            assert("gamma"@[0] == 'g');
            assert("gamma"@ != "delta"@);
            assert("frac"@.len() == 4);
            assert("sqrt"@.len() == 4);
            assert("δ"@ =~= seq!['\u{3b4}']);
            assert forall|j: int| 0 <= j < 5 implies is_ascii_alpha(#[trigger] "delta"@[j]) by {
                if j == 0 {} else if j == 1 {} else if j == 2 {} else if j == 3 {} else if j == 4 {}
            }
        } else if k == 4 {
            assert(latex_symbols()[k] == ("epsilon"@, '\u{3b5}'));
            assert("epsilon"@.len() == 7);
            assert("epsilon"@[0] == 'e');
            assert("epsilon"@[1] == 'p');
            assert("epsilon"@[2] == 's');
            assert("epsilon"@[3] == 'i');
            assert("epsilon"@[4] == 'l');
            assert("epsilon"@[5] == 'o');
            assert("epsilon"@[6] == 'n');
            assert("alpha"@.len() == 5);
            assert("beta"@.len() == 4);
            assert("gamma"@.len() == 5);
            assert("delta"@.len() == 5);
            assert("frac"@.len() == 4);
            assert("sqrt"@.len() == 4);
            assert("ε"@ =~= seq!['\u{3b5}']);
            assert forall|j: int| 0 <= j < 7 implies is_ascii_alpha(#[trigger] "epsilon"@[j]) by {
                if j == 0 {} else if j == 1 {} else if j == 2 {} else if j == 3 {} else if j == 4 {} else if j == 5 {} else if j == 6 {}
            }
        } else if k == 5 {
            assert(latex_symbols()[k] == ("theta"@, '\u{3b8}'));
            assert("theta"@.len() == 5);
            assert("theta"@[0] == 't');
            assert("theta"@[1] == 'h');
            assert("theta"@[2] == 'e');
            assert("theta"@[3] == 't');
            assert("theta"@[4] == 'a');
            assert("alpha"@[0] == 'a');
            assert("alpha"@ != "theta"@);
            assert("beta"@.len() == 4);
            assert("gamma"@[0] == 'g');
            assert("gamma"@ != "theta"@);
            assert("delta"@[0] == 'd');
            assert("delta"@ != "theta"@);
            assert("epsilon"@.len() == 7);
            assert("frac"@.len() == 4);
            assert("sqrt"@.len() == 4);
            assert("θ"@ =~= seq!['\u{3b8}']);
            assert forall|j: int| 0 <= j < 5 implies is_ascii_alpha(#[trigger] "theta"@[j]) by {
                if j == 0 {} else if j == 1 {} else if j == 2 {} else if j == 3 {} else if j == 4 {}
            }
        } else if k == 6 {
            assert(latex_symbols()[k] == ("lambda"@, '\u{3bb}'));
            assert("lambda"@.len() == 6);
            assert("lambda"@[0] == 'l');
            assert("lambda"@[1] == 'a');
            assert("lambda"@[2] == 'm');
            assert("lambda"@[3] == 'b');
            assert("lambda"@[4] == 'd');
            assert("lambda"@[5] == 'a');
            assert("alpha"@.len() == 5);
            assert("beta"@.len() == 4);
            assert("gamma"@.len() == 5);
            assert("delta"@.len() == 5);
            assert("epsilon"@.len() == 7);
            assert("theta"@.len() == 5);
            assert("frac"@.len() == 4);
            assert("sqrt"@.len() == 4);
            assert("λ"@ =~= seq!['\u{3bb}']);
            assert forall|j: int| 0 <= j < 6 implies is_ascii_alpha(#[trigger] "lambda"@[j]) by {
                if j == 0 {} else if j == 1 {} else if j == 2 {} else if j == 3 {} else if j == 4 {} else if j == 5 {}
            }
        } else if k == 7 {
            assert(latex_symbols()[k] == ("mu"@, '\u{3bc}'));
            assert("mu"@.len() == 2);
            assert("mu"@[0] == 'm');
            assert("mu"@[1] == 'u');
            assert("alpha"@.len() == 5);
            assert("beta"@.len() == 4);
            assert("gamma"@.len() == 5);
            assert("delta"@.len() == 5);
            assert("epsilon"@.len() == 7);
            assert("theta"@.len() == 5);
            assert("lambda"@.len() == 6);
            assert("frac"@.len() == 4);
            assert("sqrt"@.len() == 4);
            assert("μ"@ =~= seq!['\u{3bc}']);
            assert forall|j: int| 0 <= j < 2 implies is_ascii_alpha(#[trigger] "mu"@[j]) by {
                if j == 0 {} else if j == 1 {}
            }
        } else if k == 8 {
            assert(latex_symbols()[k] == ("pi"@, '\u{3c0}'));
            assert("pi"@.len() == 2);
            assert("pi"@[0] == 'p');
            assert("pi"@[1] == 'i');
            assert("alpha"@.len() == 5);
            assert("beta"@.len() == 4);
            assert("gamma"@.len() == 5);
            assert("delta"@.len() == 5);
            assert("epsilon"@.len() == 7);
            assert("theta"@.len() == 5);
            assert("lambda"@.len() == 6);
            assert("mu"@[0] == 'm');
            assert("mu"@ != "pi"@);
            assert("frac"@.len() == 4);
            assert("sqrt"@.len() == 4);
            assert("π"@ =~= seq!['\u{3c0}']);
            assert forall|j: int| 0 <= j < 2 implies is_ascii_alpha(#[trigger] "pi"@[j]) by {
                if j == 0 {} else if j == 1 {}
            }
        } else if k == 9 {
            assert(latex_symbols()[k] == ("sigma"@, '\u{3c3}'));
            assert("sigma"@.len() == 5);
            assert("sigma"@[0] == 's');
            assert("sigma"@[1] == 'i');
            assert("sigma"@[2] == 'g');
            assert("sigma"@[3] == 'm');
            assert("sigma"@[4] == 'a');
            assert("alpha"@[0] == 'a');
            assert("alpha"@ != "sigma"@);
            assert("beta"@.len() == 4);
            assert("gamma"@[0] == 'g');
            assert("gamma"@ != "sigma"@);
            assert("delta"@[0] == 'd');
            assert("delta"@ != "sigma"@);
            assert("epsilon"@.len() == 7);
            assert("theta"@[0] == 't');
            assert("theta"@ != "sigma"@);
            assert("lambda"@.len() == 6);
            assert("mu"@.len() == 2);
            assert("pi"@.len() == 2);
            assert("frac"@.len() == 4);
            assert("sqrt"@.len() == 4);
            assert("σ"@ =~= seq!['\u{3c3}']);
            assert forall|j: int| 0 <= j < 5 implies is_ascii_alpha(#[trigger] "sigma"@[j]) by {
                if j == 0 {} else if j == 1 {} else if j == 2 {} else if j == 3 {} else if j == 4 {}
            }
        } else if k == 10 {
            assert(latex_symbols()[k] == ("phi"@, '\u{3c6}'));
            assert("phi"@.len() == 3);
            assert("phi"@[0] == 'p');
            assert("phi"@[1] == 'h');
            assert("phi"@[2] == 'i');
            assert("alpha"@.len() == 5);
            assert("beta"@.len() == 4);
            assert("gamma"@.len() == 5);
            assert("delta"@.len() == 5);
            assert("epsilon"@.len() == 7);
            assert("theta"@.len() == 5);
            assert("lambda"@.len() == 6);
            assert("mu"@.len() == 2);
            assert("pi"@.len() == 2);
            assert("sigma"@.len() == 5);
            assert("frac"@.len() == 4);
            assert("sqrt"@.len() == 4);
            assert("φ"@ =~= seq!['\u{3c6}']);
            assert forall|j: int| 0 <= j < 3 implies is_ascii_alpha(#[trigger] "phi"@[j]) by {
                if j == 0 {} else if j == 1 {} else if j == 2 {}
            }
        } else if k == 11 {
            assert(latex_symbols()[k] == ("omega"@, '\u{3c9}'));
            assert("omega"@.len() == 5);
            assert("omega"@[0] == 'o');
            assert("omega"@[1] == 'm');
            assert("omega"@[2] == 'e');
            assert("omega"@[3] == 'g');
            assert("omega"@[4] == 'a');
            assert("alpha"@[0] == 'a');
            assert("alpha"@ != "omega"@);
            assert("beta"@.len() == 4);
            assert("gamma"@[0] == 'g');
            assert("gamma"@ != "omega"@);
            assert("delta"@[0] == 'd');
            assert("delta"@ != "omega"@);
            assert("epsilon"@.len() == 7);
            assert("theta"@[0] == 't');
            assert("theta"@ != "omega"@);
            assert("lambda"@.len() == 6);
            assert("mu"@.len() == 2);
            assert("pi"@.len() == 2);
            assert("sigma"@[0] == 's');
            assert("sigma"@ != "omega"@);
            assert("phi"@.len() == 3);
            assert("frac"@.len() == 4);
            assert("sqrt"@.len() == 4);
            assert("ω"@ =~= seq!['\u{3c9}']);
            assert forall|j: int| 0 <= j < 5 implies is_ascii_alpha(#[trigger] "omega"@[j]) by {
                if j == 0 {} else if j == 1 {} else if j == 2 {} else if j == 3 {} else if j == 4 {}
            }
        } else if k == 12 {
            assert(latex_symbols()[k] == ("Gamma"@, '\u{393}'));
            assert("Gamma"@.len() == 5);
            assert("Gamma"@[0] == 'G');
            assert("Gamma"@[1] == 'a');
            assert("Gamma"@[2] == 'm');
            assert("Gamma"@[3] == 'm');
            assert("Gamma"@[4] == 'a');
            assert("alpha"@[0] == 'a');
            assert("alpha"@ != "Gamma"@);
            assert("beta"@.len() == 4);
            assert("gamma"@[0] == 'g');
            assert("gamma"@ != "Gamma"@);
            assert("delta"@[0] == 'd');
            assert("delta"@ != "Gamma"@);
            assert("epsilon"@.len() == 7);
            assert("theta"@[0] == 't');
            assert("theta"@ != "Gamma"@);
            assert("lambda"@.len() == 6);
            assert("mu"@.len() == 2);
            assert("pi"@.len() == 2);
            assert("sigma"@[0] == 's');
            assert("sigma"@ != "Gamma"@);
            assert("phi"@.len() == 3);
            assert("omega"@[0] == 'o');
            assert("omega"@ != "Gamma"@);
            assert("frac"@.len() == 4);
            assert("sqrt"@.len() == 4);
            assert("Γ"@ =~= seq!['\u{393}']);
            assert forall|j: int| 0 <= j < 5 implies is_ascii_alpha(#[trigger] "Gamma"@[j]) by {
                if j == 0 {} else if j == 1 {} else if j == 2 {} else if j == 3 {} else if j == 4 {}
            }
        } else if k == 13 {
            assert(latex_symbols()[k] == ("Delta"@, '\u{394}'));
            assert("Delta"@.len() == 5);
            assert("Delta"@[0] == 'D');
            assert("Delta"@[1] == 'e');
            assert("Delta"@[2] == 'l');
            assert("Delta"@[3] == 't');
            assert("Delta"@[4] == 'a');
            assert("alpha"@[0] == 'a');
            assert("alpha"@ != "Delta"@);
            assert("beta"@.len() == 4);
            assert("gamma"@[0] == 'g');
            assert("gamma"@ != "Delta"@);
            assert("delta"@[0] == 'd');
            assert("delta"@ != "Delta"@);
            assert("epsilon"@.len() == 7);
            assert("theta"@[0] == 't');
            assert("theta"@ != "Delta"@);
            assert("lambda"@.len() == 6);
            assert("mu"@.len() == 2);
            assert("pi"@.len() == 2);
            assert("sigma"@[0] == 's');
            assert("sigma"@ != "Delta"@);
            assert("phi"@.len() == 3);
            assert("omega"@[0] == 'o');
            assert("omega"@ != "Delta"@);
            assert("Gamma"@[0] == 'G');
            assert("Gamma"@ != "Delta"@);
            assert("frac"@.len() == 4);
            assert("sqrt"@.len() == 4);
            assert("Δ"@ =~= seq!['\u{394}']);
            assert forall|j: int| 0 <= j < 5 implies is_ascii_alpha(#[trigger] "Delta"@[j]) by {
                if j == 0 {} else if j == 1 {} else if j == 2 {} else if j == 3 {} else if j == 4 {}
            }
        } else if k == 14 {
            assert(latex_symbols()[k] == ("Theta"@, '\u{398}'));
            assert("Theta"@.len() == 5);
            assert("Theta"@[0] == 'T');
            assert("Theta"@[1] == 'h');
            assert("Theta"@[2] == 'e');
            assert("Theta"@[3] == 't');
            assert("Theta"@[4] == 'a');
            assert("alpha"@[0] == 'a');
            assert("alpha"@ != "Theta"@);
            assert("beta"@.len() == 4);
            assert("gamma"@[0] == 'g');
            assert("gamma"@ != "Theta"@);
            assert("delta"@[0] == 'd');
            assert("delta"@ != "Theta"@);
            assert("epsilon"@.len() == 7);
            assert("theta"@[0] == 't');
            assert("theta"@ != "Theta"@);
            assert("lambda"@.len() == 6);
            assert("mu"@.len() == 2);
            assert("pi"@.len() == 2);
            assert("sigma"@[0] == 's');
            assert("sigma"@ != "Theta"@);
            assert("phi"@.len() == 3);
            assert("omega"@[0] == 'o');
            assert("omega"@ != "Theta"@);
            assert("Gamma"@[0] == 'G');
            assert("Gamma"@ != "Theta"@);
            assert("Delta"@[0] == 'D');
            assert("Delta"@ != "Theta"@);
            assert("frac"@.len() == 4);
            assert("sqrt"@.len() == 4);
            assert("Θ"@ =~= seq!['\u{398}']);
            assert forall|j: int| 0 <= j < 5 implies is_ascii_alpha(#[trigger] "Theta"@[j]) by {
                if j == 0 {} else if j == 1 {} else if j == 2 {} else if j == 3 {} else if j == 4 {}
            }
        } else if k == 15 {
            assert(latex_symbols()[k] == ("Lambda"@, '\u{39b}'));
            assert("Lambda"@.len() == 6);
            assert("Lambda"@[0] == 'L');
            assert("Lambda"@[1] == 'a');
            assert("Lambda"@[2] == 'm');
            assert("Lambda"@[3] == 'b');
            assert("Lambda"@[4] == 'd');
            assert("Lambda"@[5] == 'a');
            assert("alpha"@.len() == 5);
            assert("beta"@.len() == 4);
            assert("gamma"@.len() == 5);
            assert("delta"@.len() == 5);
            assert("epsilon"@.len() == 7);
            assert("theta"@.len() == 5);
            assert("lambda"@[0] == 'l');
            assert("lambda"@ != "Lambda"@);
            assert("mu"@.len() == 2);
            assert("pi"@.len() == 2);
            assert("sigma"@.len() == 5);
            assert("phi"@.len() == 3);
            assert("omega"@.len() == 5);
            assert("Gamma"@.len() == 5);
            assert("Delta"@.len() == 5);
            assert("Theta"@.len() == 5);
            assert("frac"@.len() == 4);
            assert("sqrt"@.len() == 4);
            assert("Λ"@ =~= seq!['\u{39b}']);
            assert forall|j: int| 0 <= j < 6 implies is_ascii_alpha(#[trigger] "Lambda"@[j]) by {
                if j == 0 {} else if j == 1 {} else if j == 2 {} else if j == 3 {} else if j == 4 {} else if j == 5 {}
            }
        } else if k == 16 {
            assert(latex_symbols()[k] == ("Pi"@, '\u{3a0}'));
            assert("Pi"@.len() == 2);
            assert("Pi"@[0] == 'P');
            assert("Pi"@[1] == 'i');
            assert("alpha"@.len() == 5);
            assert("beta"@.len() == 4);
            assert("gamma"@.len() == 5);
            assert("delta"@.len() == 5);
            assert("epsilon"@.len() == 7);
            assert("theta"@.len() == 5);
            assert("lambda"@.len() == 6);
            assert("mu"@[0] == 'm');
            assert("mu"@ != "Pi"@);
            assert("pi"@[0] == 'p');
            assert("pi"@ != "Pi"@);
            assert("sigma"@.len() == 5);
            assert("phi"@.len() == 3);
            assert("omega"@.len() == 5);
            assert("Gamma"@.len() == 5);
            assert("Delta"@.len() == 5);
            assert("Theta"@.len() == 5);
            assert("Lambda"@.len() == 6);
            assert("frac"@.len() == 4);
            assert("sqrt"@.len() == 4);
            assert("Π"@ =~= seq!['\u{3a0}']);
            assert forall|j: int| 0 <= j < 2 implies is_ascii_alpha(#[trigger] "Pi"@[j]) by {
                if j == 0 {} else if j == 1 {}
            }
        } else if k == 17 {
            assert(latex_symbols()[k] == ("Sigma"@, '\u{3a3}'));
            assert("Sigma"@.len() == 5);
            assert("Sigma"@[0] == 'S');
            assert("Sigma"@[1] == 'i');
            assert("Sigma"@[2] == 'g');
            assert("Sigma"@[3] == 'm');
            assert("Sigma"@[4] == 'a');
            assert("alpha"@[0] == 'a');
            assert("alpha"@ != "Sigma"@);
            assert("beta"@.len() == 4);
            assert("gamma"@[0] == 'g');
            assert("gamma"@ != "Sigma"@);
            assert("delta"@[0] == 'd');
            assert("delta"@ != "Sigma"@);
            assert("epsilon"@.len() == 7);
            assert("theta"@[0] == 't');
            assert("theta"@ != "Sigma"@);
            assert("lambda"@.len() == 6);
            assert("mu"@.len() == 2);
            assert("pi"@.len() == 2);
            assert("sigma"@[0] == 's');
            assert("sigma"@ != "Sigma"@);
            assert("phi"@.len() == 3);
            assert("omega"@[0] == 'o');
            assert("omega"@ != "Sigma"@);
            assert("Gamma"@[0] == 'G');
            assert("Gamma"@ != "Sigma"@);
            assert("Delta"@[0] == 'D');
            assert("Delta"@ != "Sigma"@);
            assert("Theta"@[0] == 'T');
            assert("Theta"@ != "Sigma"@);
            assert("Lambda"@.len() == 6);
            assert("Pi"@.len() == 2);
            assert("frac"@.len() == 4);
            assert("sqrt"@.len() == 4);
            assert("Σ"@ =~= seq!['\u{3a3}']);
            assert forall|j: int| 0 <= j < 5 implies is_ascii_alpha(#[trigger] "Sigma"@[j]) by {
                if j == 0 {} else if j == 1 {} else if j == 2 {} else if j == 3 {} else if j == 4 {}
            }
        } else if k == 18 {
            assert(latex_symbols()[k] == ("Phi"@, '\u{3a6}'));
            assert("Phi"@.len() == 3);
            assert("Phi"@[0] == 'P');
            assert("Phi"@[1] == 'h');
            assert("Phi"@[2] == 'i');
            assert("alpha"@.len() == 5);
            assert("beta"@.len() == 4);
            assert("gamma"@.len() == 5);
            assert("delta"@.len() == 5);
            assert("epsilon"@.len() == 7);
            assert("theta"@.len() == 5);
            assert("lambda"@.len() == 6);
            assert("mu"@.len() == 2);
            assert("pi"@.len() == 2);
            assert("sigma"@.len() == 5);
            assert("phi"@[0] == 'p');
            assert("phi"@ != "Phi"@);
            assert("omega"@.len() == 5);
            assert("Gamma"@.len() == 5);
            assert("Delta"@.len() == 5);
            assert("Theta"@.len() == 5);
            assert("Lambda"@.len() == 6);
            assert("Pi"@.len() == 2);
            assert("Sigma"@.len() == 5);
            assert("frac"@.len() == 4);
            assert("sqrt"@.len() == 4);
            assert("Φ"@ =~= seq!['\u{3a6}']);
            assert forall|j: int| 0 <= j < 3 implies is_ascii_alpha(#[trigger] "Phi"@[j]) by {
                if j == 0 {} else if j == 1 {} else if j == 2 {}
            }
        } else if k == 19 {
            assert(latex_symbols()[k] == ("Omega"@, '\u{3a9}'));
            assert("Omega"@.len() == 5);
            assert("Omega"@[0] == 'O');
            assert("Omega"@[1] == 'm');
            assert("Omega"@[2] == 'e');
            assert("Omega"@[3] == 'g');
            assert("Omega"@[4] == 'a');
            assert("alpha"@[0] == 'a');
            assert("alpha"@ != "Omega"@);
            assert("beta"@.len() == 4);
            assert("gamma"@[0] == 'g');
            assert("gamma"@ != "Omega"@);
            assert("delta"@[0] == 'd');
            assert("delta"@ != "Omega"@);
            assert("epsilon"@.len() == 7);
            assert("theta"@[0] == 't');
            assert("theta"@ != "Omega"@);
            assert("lambda"@.len() == 6);
            assert("mu"@.len() == 2);
            assert("pi"@.len() == 2);
            assert("sigma"@[0] == 's');
            assert("sigma"@ != "Omega"@);
            assert("phi"@.len() == 3);
            assert("omega"@[0] == 'o');
            assert("omega"@ != "Omega"@);
            assert("Gamma"@[0] == 'G');
            assert("Gamma"@ != "Omega"@);
            assert("Delta"@[0] == 'D');
            assert("Delta"@ != "Omega"@);
            assert("Theta"@[0] == 'T');
            assert("Theta"@ != "Omega"@);
            assert("Lambda"@.len() == 6);
            assert("Pi"@.len() == 2);
            assert("Sigma"@[0] == 'S');
            assert("Sigma"@ != "Omega"@);
            assert("Phi"@.len() == 3);
            assert("frac"@.len() == 4);
            assert("sqrt"@.len() == 4);
            assert("Ω"@ =~= seq!['\u{3a9}']);
            assert forall|j: int| 0 <= j < 5 implies is_ascii_alpha(#[trigger] "Omega"@[j]) by {
                if j == 0 {} else if j == 1 {} else if j == 2 {} else if j == 3 {} else if j == 4 {}
            }
        } else if k == 20 {
            assert(latex_symbols()[k] == ("times"@, '\u{d7}'));
            assert("times"@.len() == 5);
            assert("times"@[0] == 't');
            assert("times"@[1] == 'i');
            assert("times"@[2] == 'm');
            assert("times"@[3] == 'e');
            assert("times"@[4] == 's');
            assert("alpha"@[0] == 'a');
            assert("alpha"@ != "times"@);
            assert("beta"@.len() == 4);
            assert("gamma"@[0] == 'g');
            assert("gamma"@ != "times"@);
            assert("delta"@[0] == 'd');
            assert("delta"@ != "times"@);
            assert("epsilon"@.len() == 7);
            assert("theta"@[1] == 'h');
            assert("theta"@ != "times"@);
            assert("lambda"@.len() == 6);
            assert("mu"@.len() == 2);
            assert("pi"@.len() == 2);
            assert("sigma"@[0] == 's');
            assert("sigma"@ != "times"@);
            assert("phi"@.len() == 3);
            assert("omega"@[0] == 'o');
            assert("omega"@ != "times"@);
            assert("Gamma"@[0] == 'G');
            assert("Gamma"@ != "times"@);
            assert("Delta"@[0] == 'D');
            assert("Delta"@ != "times"@);
            assert("Theta"@[0] == 'T');
            assert("Theta"@ != "times"@);
            assert("Lambda"@.len() == 6);
            assert("Pi"@.len() == 2);
            assert("Sigma"@[0] == 'S');
            assert("Sigma"@ != "times"@);
            assert("Phi"@.len() == 3);
            assert("Omega"@[0] == 'O');
            assert("Omega"@ != "times"@);
            assert("frac"@.len() == 4);
            assert("sqrt"@.len() == 4);
            assert("×"@ =~= seq!['\u{d7}']);
            assert forall|j: int| 0 <= j < 5 implies is_ascii_alpha(#[trigger] "times"@[j]) by {
                if j == 0 {} else if j == 1 {} else if j == 2 {} else if j == 3 {} else if j == 4 {}
            }
        } else if k == 21 {
            assert(latex_symbols()[k] == ("cdot"@, '\u{b7}'));
            assert("cdot"@.len() == 4);
            assert("cdot"@[0] == 'c');
            assert("cdot"@[1] == 'd');
            assert("cdot"@[2] == 'o');
            assert("cdot"@[3] == 't');
            assert("alpha"@.len() == 5);
            assert("beta"@[0] == 'b');
            assert("beta"@ != "cdot"@);
            assert("gamma"@.len() == 5);
            assert("delta"@.len() == 5);
            assert("epsilon"@.len() == 7);
            assert("theta"@.len() == 5);
            assert("lambda"@.len() == 6);
            assert("mu"@.len() == 2);
            assert("pi"@.len() == 2);
            assert("sigma"@.len() == 5);
            assert("phi"@.len() == 3);
            assert("omega"@.len() == 5);
            assert("Gamma"@.len() == 5);
            assert("Delta"@.len() == 5);
            assert("Theta"@.len() == 5);
            assert("Lambda"@.len() == 6);
            assert("Pi"@.len() == 2);
            assert("Sigma"@.len() == 5);
            assert("Phi"@.len() == 3);
            assert("Omega"@.len() == 5);
            assert("times"@.len() == 5);
            assert("frac"@[0] == 'f');
            assert("frac"@ != "cdot"@);
            assert("sqrt"@[0] == 's');
            assert("sqrt"@ != "cdot"@);
            assert("·"@ =~= seq!['\u{b7}']);
            assert forall|j: int| 0 <= j < 4 implies is_ascii_alpha(#[trigger] "cdot"@[j]) by {
                if j == 0 {} else if j == 1 {} else if j == 2 {} else if j == 3 {}
            }
        } else if k == 22 {
            assert(latex_symbols()[k] == ("pm"@, '\u{b1}'));
            assert("pm"@.len() == 2);
            assert("pm"@[0] == 'p');
            assert("pm"@[1] == 'm');
            assert("alpha"@.len() == 5);
            assert("beta"@.len() == 4);
            assert("gamma"@.len() == 5);
            assert("delta"@.len() == 5);
            assert("epsilon"@.len() == 7);
            assert("theta"@.len() == 5);
            assert("lambda"@.len() == 6);
            assert("mu"@[0] == 'm');
            assert("mu"@ != "pm"@);
            assert("pi"@[1] == 'i');
            assert("pi"@ != "pm"@);
            assert("sigma"@.len() == 5);
            assert("phi"@.len() == 3);
            assert("omega"@.len() == 5);
            assert("Gamma"@.len() == 5);
            assert("Delta"@.len() == 5);
            assert("Theta"@.len() == 5);
            assert("Lambda"@.len() == 6);
            assert("Pi"@[0] == 'P');
            assert("Pi"@ != "pm"@);
            assert("Sigma"@.len() == 5);
            assert("Phi"@.len() == 3);
            assert("Omega"@.len() == 5);
            assert("times"@.len() == 5);
            assert("cdot"@.len() == 4);
            assert("frac"@.len() == 4);
            assert("sqrt"@.len() == 4);
            assert("±"@ =~= seq!['\u{b1}']);
            assert forall|j: int| 0 <= j < 2 implies is_ascii_alpha(#[trigger] "pm"@[j]) by {
                if j == 0 {} else if j == 1 {}
            }
        } else if k == 23 {
            assert(latex_symbols()[k] == ("le"@, '\u{2264}'));
            assert("le"@.len() == 2);
            assert("le"@[0] == 'l');
            assert("le"@[1] == 'e');
            assert("alpha"@.len() == 5);
            assert("beta"@.len() == 4);
            assert("gamma"@.len() == 5);
            assert("delta"@.len() == 5);
            assert("epsilon"@.len() == 7);
            assert("theta"@.len() == 5);
            assert("lambda"@.len() == 6);
            assert("mu"@[0] == 'm');
            assert("mu"@ != "le"@);
            assert("pi"@[0] == 'p');
            assert("pi"@ != "le"@);
            assert("sigma"@.len() == 5);
            assert("phi"@.len() == 3);
            assert("omega"@.len() == 5);
            assert("Gamma"@.len() == 5);
            assert("Delta"@.len() == 5);
            assert("Theta"@.len() == 5);
            assert("Lambda"@.len() == 6);
            assert("Pi"@[0] == 'P');
            assert("Pi"@ != "le"@);
            assert("Sigma"@.len() == 5);
            assert("Phi"@.len() == 3);
            assert("Omega"@.len() == 5);
            assert("times"@.len() == 5);
            assert("cdot"@.len() == 4);
            assert("pm"@[0] == 'p');
            assert("pm"@ != "le"@);
            assert("frac"@.len() == 4);
            assert("sqrt"@.len() == 4);
            assert("≤"@ =~= seq!['\u{2264}']);
            assert forall|j: int| 0 <= j < 2 implies is_ascii_alpha(#[trigger] "le"@[j]) by {
                if j == 0 {} else if j == 1 {}
            }
        } else if k == 24 {
            assert(latex_symbols()[k] == ("leq"@, '\u{2264}'));
            assert("leq"@.len() == 3);
            assert("leq"@[0] == 'l');
            assert("leq"@[1] == 'e');
            assert("leq"@[2] == 'q');
            assert("alpha"@.len() == 5);
            assert("beta"@.len() == 4);
            assert("gamma"@.len() == 5);
            assert("delta"@.len() == 5);
            assert("epsilon"@.len() == 7);
            assert("theta"@.len() == 5);
            assert("lambda"@.len() == 6);
            assert("mu"@.len() == 2);
            assert("pi"@.len() == 2);
            assert("sigma"@.len() == 5);
            assert("phi"@[0] == 'p');
            assert("phi"@ != "leq"@);
            assert("omega"@.len() == 5);
            assert("Gamma"@.len() == 5);
            assert("Delta"@.len() == 5);
            assert("Theta"@.len() == 5);
            assert("Lambda"@.len() == 6);
            assert("Pi"@.len() == 2);
            assert("Sigma"@.len() == 5);
            assert("Phi"@[0] == 'P');
            assert("Phi"@ != "leq"@);
            assert("Omega"@.len() == 5);
            assert("times"@.len() == 5);
            assert("cdot"@.len() == 4);
            assert("pm"@.len() == 2);
            assert("le"@.len() == 2);
            assert("frac"@.len() == 4);
            assert("sqrt"@.len() == 4);
            assert("≤"@ =~= seq!['\u{2264}']);
            assert forall|j: int| 0 <= j < 3 implies is_ascii_alpha(#[trigger] "leq"@[j]) by {
                if j == 0 {} else if j == 1 {} else if j == 2 {}
            }
        } else if k == 25 {
            assert(latex_symbols()[k] == ("ge"@, '\u{2265}'));
            assert("ge"@.len() == 2);
            assert("ge"@[0] == 'g');
            assert("ge"@[1] == 'e');
            assert("alpha"@.len() == 5);
            assert("beta"@.len() == 4);
            assert("gamma"@.len() == 5);
            assert("delta"@.len() == 5);
            assert("epsilon"@.len() == 7);
            assert("theta"@.len() == 5);
            assert("lambda"@.len() == 6);
            assert("mu"@[0] == 'm');
            assert("mu"@ != "ge"@);
            assert("pi"@[0] == 'p');
            assert("pi"@ != "ge"@);
            assert("sigma"@.len() == 5);
            assert("phi"@.len() == 3);
            assert("omega"@.len() == 5);
            assert("Gamma"@.len() == 5);
            assert("Delta"@.len() == 5);
            assert("Theta"@.len() == 5);
            assert("Lambda"@.len() == 6);
            assert("Pi"@[0] == 'P');
            assert("Pi"@ != "ge"@);
            assert("Sigma"@.len() == 5);
            assert("Phi"@.len() == 3);
            assert("Omega"@.len() == 5);
            assert("times"@.len() == 5);
            assert("cdot"@.len() == 4);
            assert("pm"@[0] == 'p');
            assert("pm"@ != "ge"@);
            assert("le"@[0] == 'l');
            assert("le"@ != "ge"@);
            assert("leq"@.len() == 3);
            assert("frac"@.len() == 4);
            assert("sqrt"@.len() == 4);
            assert("≥"@ =~= seq!['\u{2265}']);
            assert forall|j: int| 0 <= j < 2 implies is_ascii_alpha(#[trigger] "ge"@[j]) by {
                if j == 0 {} else if j == 1 {}
            }
        } else if k == 26 {
            assert(latex_symbols()[k] == ("geq"@, '\u{2265}'));
            assert("geq"@.len() == 3);
            assert("geq"@[0] == 'g');
            assert("geq"@[1] == 'e');
            assert("geq"@[2] == 'q');
            assert("alpha"@.len() == 5);
            assert("beta"@.len() == 4);
            assert("gamma"@.len() == 5);
            assert("delta"@.len() == 5);
            assert("epsilon"@.len() == 7);
            assert("theta"@.len() == 5);
            assert("lambda"@.len() == 6);
            assert("mu"@.len() == 2);
            assert("pi"@.len() == 2);
            assert("sigma"@.len() == 5);
            assert("phi"@[0] == 'p');
            assert("phi"@ != "geq"@);
            assert("omega"@.len() == 5);
            assert("Gamma"@.len() == 5);
            assert("Delta"@.len() == 5);
            assert("Theta"@.len() == 5);
            assert("Lambda"@.len() == 6);
            assert("Pi"@.len() == 2);
            assert("Sigma"@.len() == 5);
            assert("Phi"@[0] == 'P');
            assert("Phi"@ != "geq"@);
            assert("Omega"@.len() == 5);
            assert("times"@.len() == 5);
            assert("cdot"@.len() == 4);
            assert("pm"@.len() == 2);
            assert("le"@.len() == 2);
            assert("leq"@[0] == 'l');
            assert("leq"@ != "geq"@);
            assert("ge"@.len() == 2);
            assert("frac"@.len() == 4);
            assert("sqrt"@.len() == 4);
            assert("≥"@ =~= seq!['\u{2265}']);
            assert forall|j: int| 0 <= j < 3 implies is_ascii_alpha(#[trigger] "geq"@[j]) by {
                if j == 0 {} else if j == 1 {} else if j == 2 {}
            }
        } else if k == 27 {
            assert(latex_symbols()[k] == ("neq"@, '\u{2260}'));
            assert("neq"@.len() == 3);
            assert("neq"@[0] == 'n');
            assert("neq"@[1] == 'e');
            assert("neq"@[2] == 'q');
            assert("alpha"@.len() == 5);
            assert("beta"@.len() == 4);
            assert("gamma"@.len() == 5);
            assert("delta"@.len() == 5);
            assert("epsilon"@.len() == 7);
            assert("theta"@.len() == 5);
            assert("lambda"@.len() == 6);
            assert("mu"@.len() == 2);
            assert("pi"@.len() == 2);
            assert("sigma"@.len() == 5);
            assert("phi"@[0] == 'p');
            assert("phi"@ != "neq"@);
            assert("omega"@.len() == 5);
            assert("Gamma"@.len() == 5);
            assert("Delta"@.len() == 5);
            assert("Theta"@.len() == 5);
            assert("Lambda"@.len() == 6);
            assert("Pi"@.len() == 2);
            assert("Sigma"@.len() == 5);
            assert("Phi"@[0] == 'P');
            assert("Phi"@ != "neq"@);
            assert("Omega"@.len() == 5);
            assert("times"@.len() == 5);
            assert("cdot"@.len() == 4);
            assert("pm"@.len() == 2);
            assert("le"@.len() == 2);
            assert("leq"@[0] == 'l');
            assert("leq"@ != "neq"@);
            assert("ge"@.len() == 2);
            assert("geq"@[0] == 'g');
            assert("geq"@ != "neq"@);
            assert("frac"@.len() == 4);
            assert("sqrt"@.len() == 4);
            assert("≠"@ =~= seq!['\u{2260}']);
            assert forall|j: int| 0 <= j < 3 implies is_ascii_alpha(#[trigger] "neq"@[j]) by {
                if j == 0 {} else if j == 1 {} else if j == 2 {}
            }
        } else if k == 28 {
            assert(latex_symbols()[k] == ("approx"@, '\u{2248}'));
            assert("approx"@.len() == 6);
            assert("approx"@[0] == 'a');
            assert("approx"@[1] == 'p');
            assert("approx"@[2] == 'p');
            assert("approx"@[3] == 'r');
            assert("approx"@[4] == 'o');
            assert("approx"@[5] == 'x');
            assert("alpha"@.len() == 5);
            assert("beta"@.len() == 4);
            assert("gamma"@.len() == 5);
            assert("delta"@.len() == 5);
            assert("epsilon"@.len() == 7);
            assert("theta"@.len() == 5);
            assert("lambda"@[0] == 'l');
            assert("lambda"@ != "approx"@);
            assert("mu"@.len() == 2);
            assert("pi"@.len() == 2);
            assert("sigma"@.len() == 5);
            assert("phi"@.len() == 3);
            assert("omega"@.len() == 5);
            assert("Gamma"@.len() == 5);
            assert("Delta"@.len() == 5);
            assert("Theta"@.len() == 5);
            assert("Lambda"@[0] == 'L');
            assert("Lambda"@ != "approx"@);
            assert("Pi"@.len() == 2);
            assert("Sigma"@.len() == 5);
            assert("Phi"@.len() == 3);
            assert("Omega"@.len() == 5);
            assert("times"@.len() == 5);
            assert("cdot"@.len() == 4);
            assert("pm"@.len() == 2);
            assert("le"@.len() == 2);
            assert("leq"@.len() == 3);
            assert("ge"@.len() == 2);
            assert("geq"@.len() == 3);
            assert("neq"@.len() == 3);
            assert("frac"@.len() == 4);
            assert("sqrt"@.len() == 4);
            assert("≈"@ =~= seq!['\u{2248}']);
            assert forall|j: int| 0 <= j < 6 implies is_ascii_alpha(#[trigger] "approx"@[j]) by {
                if j == 0 {} else if j == 1 {} else if j == 2 {} else if j == 3 {} else if j == 4 {} else if j == 5 {}
            }
        } else if k == 29 {
            assert(latex_symbols()[k] == ("infty"@, '\u{221e}'));
            assert("infty"@.len() == 5);
            assert("infty"@[0] == 'i');
            assert("infty"@[1] == 'n');
            assert("infty"@[2] == 'f');
            assert("infty"@[3] == 't');
            assert("infty"@[4] == 'y');
            assert("alpha"@[0] == 'a');
            assert("alpha"@ != "infty"@);
            assert("beta"@.len() == 4);
            assert("gamma"@[0] == 'g');
            assert("gamma"@ != "infty"@);
            assert("delta"@[0] == 'd');
            assert("delta"@ != "infty"@);
            assert("epsilon"@.len() == 7);
            assert("theta"@[0] == 't');
            assert("theta"@ != "infty"@);
            assert("lambda"@.len() == 6);
            assert("mu"@.len() == 2);
            assert("pi"@.len() == 2);
            assert("sigma"@[0] == 's');
            assert("sigma"@ != "infty"@);
            assert("phi"@.len() == 3);
            assert("omega"@[0] == 'o');
            assert("omega"@ != "infty"@);
            assert("Gamma"@[0] == 'G');
            assert("Gamma"@ != "infty"@);
            assert("Delta"@[0] == 'D');
            assert("Delta"@ != "infty"@);
            assert("Theta"@[0] == 'T');
            assert("Theta"@ != "infty"@);
            assert("Lambda"@.len() == 6);
            assert("Pi"@.len() == 2);
            assert("Sigma"@[0] == 'S');
            assert("Sigma"@ != "infty"@);
            assert("Phi"@.len() == 3);
            assert("Omega"@[0] == 'O');
            assert("Omega"@ != "infty"@);
            assert("times"@[0] == 't');
            assert("times"@ != "infty"@);
            assert("cdot"@.len() == 4);
            assert("pm"@.len() == 2);
            assert("le"@.len() == 2);
            assert("leq"@.len() == 3);
            assert("ge"@.len() == 2);
            assert("geq"@.len() == 3);
            assert("neq"@.len() == 3);
            assert("approx"@.len() == 6);
            assert("frac"@.len() == 4);
            assert("sqrt"@.len() == 4);
            assert("∞"@ =~= seq!['\u{221e}']);
            assert forall|j: int| 0 <= j < 5 implies is_ascii_alpha(#[trigger] "infty"@[j]) by {
                if j == 0 {} else if j == 1 {} else if j == 2 {} else if j == 3 {} else if j == 4 {}
            }
        } else if k == 30 {
            assert(latex_symbols()[k] == ("sum"@, '\u{2211}'));
            assert("sum"@.len() == 3);
            assert("sum"@[0] == 's');
            assert("sum"@[1] == 'u');
            assert("sum"@[2] == 'm');
            assert("alpha"@.len() == 5);
            assert("beta"@.len() == 4);
            assert("gamma"@.len() == 5);
            assert("delta"@.len() == 5);
            assert("epsilon"@.len() == 7);
            assert("theta"@.len() == 5);
            assert("lambda"@.len() == 6);
            assert("mu"@.len() == 2);
            assert("pi"@.len() == 2);
            assert("sigma"@.len() == 5);
            assert("phi"@[0] == 'p');
            assert("phi"@ != "sum"@);
            assert("omega"@.len() == 5);
            assert("Gamma"@.len() == 5);
            assert("Delta"@.len() == 5);
            assert("Theta"@.len() == 5);
            assert("Lambda"@.len() == 6);
            assert("Pi"@.len() == 2);
            assert("Sigma"@.len() == 5);
            assert("Phi"@[0] == 'P');
            assert("Phi"@ != "sum"@);
            assert("Omega"@.len() == 5);
            assert("times"@.len() == 5);
            assert("cdot"@.len() == 4);
            assert("pm"@.len() == 2);
            assert("le"@.len() == 2);
            assert("leq"@[0] == 'l');
            assert("leq"@ != "sum"@);
            assert("ge"@.len() == 2);
            assert("geq"@[0] == 'g');
            assert("geq"@ != "sum"@);
            assert("neq"@[0] == 'n');
            assert("neq"@ != "sum"@);
            assert("approx"@.len() == 6);
            assert("infty"@.len() == 5);
            assert("frac"@.len() == 4);
            assert("sqrt"@.len() == 4);
            assert("∑"@ =~= seq!['\u{2211}']);
            assert forall|j: int| 0 <= j < 3 implies is_ascii_alpha(#[trigger] "sum"@[j]) by {
                if j == 0 {} else if j == 1 {} else if j == 2 {}
            }
        } else if k == 31 {
            assert(latex_symbols()[k] == ("prod"@, '\u{220f}'));
            assert("prod"@.len() == 4);
            assert("prod"@[0] == 'p');
            assert("prod"@[1] == 'r');
            assert("prod"@[2] == 'o');
            assert("prod"@[3] == 'd');
            assert("alpha"@.len() == 5);
            assert("beta"@[0] == 'b');
            assert("beta"@ != "prod"@);
            assert("gamma"@.len() == 5);
            assert("delta"@.len() == 5);
            assert("epsilon"@.len() == 7);
            assert("theta"@.len() == 5);
            assert("lambda"@.len() == 6);
            assert("mu"@.len() == 2);
            assert("pi"@.len() == 2);
            assert("sigma"@.len() == 5);
            assert("phi"@.len() == 3);
            assert("omega"@.len() == 5);
            assert("Gamma"@.len() == 5);
            assert("Delta"@.len() == 5);
            assert("Theta"@.len() == 5);
            assert("Lambda"@.len() == 6);
            assert("Pi"@.len() == 2);
            assert("Sigma"@.len() == 5);
            assert("Phi"@.len() == 3);
            assert("Omega"@.len() == 5);
            assert("times"@.len() == 5);
            assert("cdot"@[0] == 'c');
            assert("cdot"@ != "prod"@);
            assert("pm"@.len() == 2);
            assert("le"@.len() == 2);
            assert("leq"@.len() == 3);
            assert("ge"@.len() == 2);
            assert("geq"@.len() == 3);
            assert("neq"@.len() == 3);
            assert("approx"@.len() == 6);
            assert("infty"@.len() == 5);
            assert("sum"@.len() == 3);
            assert("frac"@[0] == 'f');
            assert("frac"@ != "prod"@);
            assert("sqrt"@[0] == 's');
            assert("sqrt"@ != "prod"@);
            assert("∏"@ =~= seq!['\u{220f}']);
            assert forall|j: int| 0 <= j < 4 implies is_ascii_alpha(#[trigger] "prod"@[j]) by {
                if j == 0 {} else if j == 1 {} else if j == 2 {} else if j == 3 {}
            }
        } else if k == 32 {
            assert(latex_symbols()[k] == ("int"@, '\u{222b}'));
            assert("int"@.len() == 3);
            assert("int"@[0] == 'i');
            assert("int"@[1] == 'n');
            assert("int"@[2] == 't');
            assert("alpha"@.len() == 5);
            assert("beta"@.len() == 4);
            assert("gamma"@.len() == 5);
            assert("delta"@.len() == 5);
            assert("epsilon"@.len() == 7);
            assert("theta"@.len() == 5);
            assert("lambda"@.len() == 6);
            assert("mu"@.len() == 2);
            assert("pi"@.len() == 2);
            assert("sigma"@.len() == 5);
            assert("phi"@[0] == 'p');
            assert("phi"@ != "int"@);
            assert("omega"@.len() == 5);
            assert("Gamma"@.len() == 5);
            assert("Delta"@.len() == 5);
            assert("Theta"@.len() == 5);
            assert("Lambda"@.len() == 6);
            assert("Pi"@.len() == 2);
            assert("Sigma"@.len() == 5);
            assert("Phi"@[0] == 'P');
            assert("Phi"@ != "int"@);
            assert("Omega"@.len() == 5);
            assert("times"@.len() == 5);
            assert("cdot"@.len() == 4);
            assert("pm"@.len() == 2);
            assert("le"@.len() == 2);
            assert("leq"@[0] == 'l');
            assert("leq"@ != "int"@);
            assert("ge"@.len() == 2);
            assert("geq"@[0] == 'g');
            assert("geq"@ != "int"@);
            assert("neq"@[0] == 'n');
            assert("neq"@ != "int"@);
            assert("approx"@.len() == 6);
            assert("infty"@.len() == 5);
            assert("sum"@[0] == 's');
            assert("sum"@ != "int"@);
            assert("prod"@.len() == 4);
            assert("frac"@.len() == 4);
            assert("sqrt"@.len() == 4);
            assert("∫"@ =~= seq!['\u{222b}']);
            assert forall|j: int| 0 <= j < 3 implies is_ascii_alpha(#[trigger] "int"@[j]) by {
                if j == 0 {} else if j == 1 {} else if j == 2 {}
            }
        } else if k == 33 {
            assert(latex_symbols()[k] == ("partial"@, '\u{2202}'));
            assert("partial"@.len() == 7);
            assert("partial"@[0] == 'p');
            assert("partial"@[1] == 'a');
            assert("partial"@[2] == 'r');
            assert("partial"@[3] == 't');
            assert("partial"@[4] == 'i');
            assert("partial"@[5] == 'a');
            assert("partial"@[6] == 'l');
            assert("alpha"@.len() == 5);
            assert("beta"@.len() == 4);
            assert("gamma"@.len() == 5);
            assert("delta"@.len() == 5);
            assert("epsilon"@[0] == 'e');
            assert("epsilon"@ != "partial"@);
            assert("theta"@.len() == 5);
            assert("lambda"@.len() == 6);
            assert("mu"@.len() == 2);
            assert("pi"@.len() == 2);
            assert("sigma"@.len() == 5);
            assert("phi"@.len() == 3);
            assert("omega"@.len() == 5);
            assert("Gamma"@.len() == 5);
            assert("Delta"@.len() == 5);
            assert("Theta"@.len() == 5);
            assert("Lambda"@.len() == 6);
            assert("Pi"@.len() == 2);
            assert("Sigma"@.len() == 5);
            assert("Phi"@.len() == 3);
            assert("Omega"@.len() == 5);
            assert("times"@.len() == 5);
            assert("cdot"@.len() == 4);
            assert("pm"@.len() == 2);
            assert("le"@.len() == 2);
            assert("leq"@.len() == 3);
            assert("ge"@.len() == 2);
            assert("geq"@.len() == 3);
            assert("neq"@.len() == 3);
            assert("approx"@.len() == 6);
            assert("infty"@.len() == 5);
            assert("sum"@.len() == 3);
            assert("prod"@.len() == 4);
            assert("int"@.len() == 3);
            assert("frac"@.len() == 4);
            assert("sqrt"@.len() == 4);
            assert("∂"@ =~= seq!['\u{2202}']);
            assert forall|j: int| 0 <= j < 7 implies is_ascii_alpha(#[trigger] "partial"@[j]) by {
                if j == 0 {} else if j == 1 {} else if j == 2 {} else if j == 3 {} else if j == 4 {} else if j == 5 {} else if j == 6 {}
            }
        } else if k == 34 {
            assert(latex_symbols()[k] == ("nabla"@, '\u{2207}'));
            assert("nabla"@.len() == 5);
            assert("nabla"@[0] == 'n');
            assert("nabla"@[1] == 'a');
            assert("nabla"@[2] == 'b');
            assert("nabla"@[3] == 'l');
            assert("nabla"@[4] == 'a');
            assert("alpha"@[0] == 'a');
            assert("alpha"@ != "nabla"@);
            assert("beta"@.len() == 4);
            assert("gamma"@[0] == 'g');
            assert("gamma"@ != "nabla"@);
            assert("delta"@[0] == 'd');
            assert("delta"@ != "nabla"@);
            assert("epsilon"@.len() == 7);
            assert("theta"@[0] == 't');
            assert("theta"@ != "nabla"@);
            assert("lambda"@.len() == 6);
            assert("mu"@.len() == 2);
            assert("pi"@.len() == 2);
            assert("sigma"@[0] == 's');
            assert("sigma"@ != "nabla"@);
            assert("phi"@.len() == 3);
            assert("omega"@[0] == 'o');
            assert("omega"@ != "nabla"@);
            assert("Gamma"@[0] == 'G');
            assert("Gamma"@ != "nabla"@);
            assert("Delta"@[0] == 'D');
            assert("Delta"@ != "nabla"@);
            assert("Theta"@[0] == 'T');
            assert("Theta"@ != "nabla"@);
            assert("Lambda"@.len() == 6);
            assert("Pi"@.len() == 2);
            assert("Sigma"@[0] == 'S');
            assert("Sigma"@ != "nabla"@);
            assert("Phi"@.len() == 3);
            assert("Omega"@[0] == 'O');
            assert("Omega"@ != "nabla"@);
            assert("times"@[0] == 't');
            assert("times"@ != "nabla"@);
            assert("cdot"@.len() == 4);
            assert("pm"@.len() == 2);
            assert("le"@.len() == 2);
            assert("leq"@.len() == 3);
            assert("ge"@.len() == 2);
            assert("geq"@.len() == 3);
            assert("neq"@.len() == 3);
            assert("approx"@.len() == 6);
            assert("infty"@[0] == 'i');
            assert("infty"@ != "nabla"@);
            assert("sum"@.len() == 3);
            assert("prod"@.len() == 4);
            assert("int"@.len() == 3);
            assert("partial"@.len() == 7);
            assert("frac"@.len() == 4);
            assert("sqrt"@.len() == 4);
            assert("∇"@ =~= seq!['\u{2207}']);
            assert forall|j: int| 0 <= j < 5 implies is_ascii_alpha(#[trigger] "nabla"@[j]) by {
                if j == 0 {} else if j == 1 {} else if j == 2 {} else if j == 3 {} else if j == 4 {}
            }
        } else if k == 35 {
            assert(latex_symbols()[k] == ("to"@, '\u{2192}'));
            assert("to"@.len() == 2);
            assert("to"@[0] == 't');
            assert("to"@[1] == 'o');
            assert("alpha"@.len() == 5);
            assert("beta"@.len() == 4);
            assert("gamma"@.len() == 5);
            assert("delta"@.len() == 5);
            assert("epsilon"@.len() == 7);
            assert("theta"@.len() == 5);
            assert("lambda"@.len() == 6);
            assert("mu"@[0] == 'm');
            assert("mu"@ != "to"@);
            assert("pi"@[0] == 'p');
            assert("pi"@ != "to"@);
            assert("sigma"@.len() == 5);
            assert("phi"@.len() == 3);
            assert("omega"@.len() == 5);
            assert("Gamma"@.len() == 5);
            assert("Delta"@.len() == 5);
            assert("Theta"@.len() == 5);
            assert("Lambda"@.len() == 6);
            assert("Pi"@[0] == 'P');
            assert("Pi"@ != "to"@);
            assert("Sigma"@.len() == 5);
            assert("Phi"@.len() == 3);
            assert("Omega"@.len() == 5);
            assert("times"@.len() == 5);
            assert("cdot"@.len() == 4);
            assert("pm"@[0] == 'p');
            assert("pm"@ != "to"@);
            assert("le"@[0] == 'l');
            assert("le"@ != "to"@);
            assert("leq"@.len() == 3);
            assert("ge"@[0] == 'g');
            assert("ge"@ != "to"@);
            assert("geq"@.len() == 3);
            assert("neq"@.len() == 3);
            assert("approx"@.len() == 6);
            assert("infty"@.len() == 5);
            assert("sum"@.len() == 3);
            assert("prod"@.len() == 4);
            assert("int"@.len() == 3);
            assert("partial"@.len() == 7);
            assert("nabla"@.len() == 5);
            assert("frac"@.len() == 4);
            assert("sqrt"@.len() == 4);
            assert("→"@ =~= seq!['\u{2192}']);
            assert forall|j: int| 0 <= j < 2 implies is_ascii_alpha(#[trigger] "to"@[j]) by {
                if j == 0 {} else if j == 1 {}
            }
        } else if k == 36 {
            assert(latex_symbols()[k] == ("rightarrow"@, '\u{2192}'));
            assert("rightarrow"@.len() == 10);
            assert("rightarrow"@[0] == 'r');
            assert("rightarrow"@[1] == 'i');
            assert("rightarrow"@[2] == 'g');
            assert("rightarrow"@[3] == 'h');
            assert("rightarrow"@[4] == 't');
            assert("rightarrow"@[5] == 'a');
            assert("rightarrow"@[6] == 'r');
            assert("rightarrow"@[7] == 'r');
            assert("rightarrow"@[8] == 'o');
            assert("rightarrow"@[9] == 'w');
            assert("alpha"@.len() == 5);
            assert("beta"@.len() == 4);
            assert("gamma"@.len() == 5);
            assert("delta"@.len() == 5);
            assert("epsilon"@.len() == 7);
            assert("theta"@.len() == 5);
            assert("lambda"@.len() == 6);
            assert("mu"@.len() == 2);
            assert("pi"@.len() == 2);
            assert("sigma"@.len() == 5);
            assert("phi"@.len() == 3);
            assert("omega"@.len() == 5);
            assert("Gamma"@.len() == 5);
            assert("Delta"@.len() == 5);
            assert("Theta"@.len() == 5);
            assert("Lambda"@.len() == 6);
            assert("Pi"@.len() == 2);
            assert("Sigma"@.len() == 5);
            assert("Phi"@.len() == 3);
            assert("Omega"@.len() == 5);
            assert("times"@.len() == 5);
            assert("cdot"@.len() == 4);
            assert("pm"@.len() == 2);
            assert("le"@.len() == 2);
            assert("leq"@.len() == 3);
            assert("ge"@.len() == 2);
            assert("geq"@.len() == 3);
            assert("neq"@.len() == 3);
            assert("approx"@.len() == 6);
            assert("infty"@.len() == 5);
            assert("sum"@.len() == 3);
            assert("prod"@.len() == 4);
            assert("int"@.len() == 3);
            assert("partial"@.len() == 7);
            assert("nabla"@.len() == 5);
            assert("to"@.len() == 2);
            assert("frac"@.len() == 4);
            assert("sqrt"@.len() == 4);
            assert("→"@ =~= seq!['\u{2192}']);
            assert forall|j: int| 0 <= j < 10 implies is_ascii_alpha(#[trigger] "rightarrow"@[j]) by {
                if j == 0 {} else if j == 1 {} else if j == 2 {} else if j == 3 {} else if j == 4 {} else if j == 5 {} else if j == 6 {} else if j == 7 {} else if j == 8 {} else if j == 9 {}
            }
        } else if k == 37 {
            assert(latex_symbols()[k] == ("leftarrow"@, '\u{2190}'));
            assert("leftarrow"@.len() == 9);
            assert("leftarrow"@[0] == 'l');
            assert("leftarrow"@[1] == 'e');
            assert("leftarrow"@[2] == 'f');
            assert("leftarrow"@[3] == 't');
            assert("leftarrow"@[4] == 'a');
            assert("leftarrow"@[5] == 'r');
            assert("leftarrow"@[6] == 'r');
            assert("leftarrow"@[7] == 'o');
            assert("leftarrow"@[8] == 'w');
            assert("alpha"@.len() == 5);
            assert("beta"@.len() == 4);
            assert("gamma"@.len() == 5);
            assert("delta"@.len() == 5);
            assert("epsilon"@.len() == 7);
            assert("theta"@.len() == 5);
            assert("lambda"@.len() == 6);
            assert("mu"@.len() == 2);
            assert("pi"@.len() == 2);
            assert("sigma"@.len() == 5);
            assert("phi"@.len() == 3);
            assert("omega"@.len() == 5);
            assert("Gamma"@.len() == 5);
            assert("Delta"@.len() == 5);
            assert("Theta"@.len() == 5);
            assert("Lambda"@.len() == 6);
            assert("Pi"@.len() == 2);
            assert("Sigma"@.len() == 5);
            assert("Phi"@.len() == 3);
            assert("Omega"@.len() == 5);
            assert("times"@.len() == 5);
            assert("cdot"@.len() == 4);
            assert("pm"@.len() == 2);
            assert("le"@.len() == 2);
            assert("leq"@.len() == 3);
            assert("ge"@.len() == 2);
            assert("geq"@.len() == 3);
            assert("neq"@.len() == 3);
            assert("approx"@.len() == 6);
            assert("infty"@.len() == 5);
            assert("sum"@.len() == 3);
            assert("prod"@.len() == 4);
            assert("int"@.len() == 3);
            assert("partial"@.len() == 7);
            assert("nabla"@.len() == 5);
            assert("to"@.len() == 2);
            assert("rightarrow"@.len() == 10);
            assert("frac"@.len() == 4);
            assert("sqrt"@.len() == 4);
            assert("←"@ =~= seq!['\u{2190}']);
            assert forall|j: int| 0 <= j < 9 implies is_ascii_alpha(#[trigger] "leftarrow"@[j]) by {
                if j == 0 {} else if j == 1 {} else if j == 2 {} else if j == 3 {} else if j == 4 {} else if j == 5 {} else if j == 6 {} else if j == 7 {} else if j == 8 {}
            }
        } else if k == 38 {
            assert(latex_symbols()[k] == ("Rightarrow"@, '\u{21d2}'));
            assert("Rightarrow"@.len() == 10);
            assert("Rightarrow"@[0] == 'R');
            assert("Rightarrow"@[1] == 'i');
            assert("Rightarrow"@[2] == 'g');
            assert("Rightarrow"@[3] == 'h');
            assert("Rightarrow"@[4] == 't');
            assert("Rightarrow"@[5] == 'a');
            assert("Rightarrow"@[6] == 'r');
            assert("Rightarrow"@[7] == 'r');
            assert("Rightarrow"@[8] == 'o');
            assert("Rightarrow"@[9] == 'w');
            assert("alpha"@.len() == 5);
            assert("beta"@.len() == 4);
            assert("gamma"@.len() == 5);
            assert("delta"@.len() == 5);
            assert("epsilon"@.len() == 7);
            assert("theta"@.len() == 5);
            assert("lambda"@.len() == 6);
            assert("mu"@.len() == 2);
            assert("pi"@.len() == 2);
            assert("sigma"@.len() == 5);
            assert("phi"@.len() == 3);
            assert("omega"@.len() == 5);
            assert("Gamma"@.len() == 5);
            assert("Delta"@.len() == 5);
            assert("Theta"@.len() == 5);
            assert("Lambda"@.len() == 6);
            assert("Pi"@.len() == 2);
            assert("Sigma"@.len() == 5);
            assert("Phi"@.len() == 3);
            assert("Omega"@.len() == 5);
            assert("times"@.len() == 5);
            assert("cdot"@.len() == 4);
            assert("pm"@.len() == 2);
            assert("le"@.len() == 2);
            assert("leq"@.len() == 3);
            assert("ge"@.len() == 2);
            assert("geq"@.len() == 3);
            assert("neq"@.len() == 3);
            assert("approx"@.len() == 6);
            assert("infty"@.len() == 5);
            assert("sum"@.len() == 3);
            assert("prod"@.len() == 4);
            assert("int"@.len() == 3);
            assert("partial"@.len() == 7);
            assert("nabla"@.len() == 5);
            assert("to"@.len() == 2);
            assert("rightarrow"@[0] == 'r');
            assert("rightarrow"@ != "Rightarrow"@);
            assert("leftarrow"@.len() == 9);
            assert("frac"@.len() == 4);
            assert("sqrt"@.len() == 4);
            assert("⇒"@ =~= seq!['\u{21d2}']);
            assert forall|j: int| 0 <= j < 10 implies is_ascii_alpha(#[trigger] "Rightarrow"@[j]) by {
                if j == 0 {} else if j == 1 {} else if j == 2 {} else if j == 3 {} else if j == 4 {} else if j == 5 {} else if j == 6 {} else if j == 7 {} else if j == 8 {} else if j == 9 {}
            }
        } else if k == 39 {
            assert(latex_symbols()[k] == ("Leftarrow"@, '\u{21d0}'));
            assert("Leftarrow"@.len() == 9);
            assert("Leftarrow"@[0] == 'L');
            assert("Leftarrow"@[1] == 'e');
            assert("Leftarrow"@[2] == 'f');
            assert("Leftarrow"@[3] == 't');
            assert("Leftarrow"@[4] == 'a');
            assert("Leftarrow"@[5] == 'r');
            assert("Leftarrow"@[6] == 'r');
            assert("Leftarrow"@[7] == 'o');
            assert("Leftarrow"@[8] == 'w');
            assert("alpha"@.len() == 5);
            assert("beta"@.len() == 4);
            assert("gamma"@.len() == 5);
            assert("delta"@.len() == 5);
            assert("epsilon"@.len() == 7);
            assert("theta"@.len() == 5);
            assert("lambda"@.len() == 6);
            assert("mu"@.len() == 2);
            assert("pi"@.len() == 2);
            assert("sigma"@.len() == 5);
            assert("phi"@.len() == 3);
            assert("omega"@.len() == 5);
            assert("Gamma"@.len() == 5);
            assert("Delta"@.len() == 5);
            assert("Theta"@.len() == 5);
            assert("Lambda"@.len() == 6);
            assert("Pi"@.len() == 2);
            assert("Sigma"@.len() == 5);
            assert("Phi"@.len() == 3);
            assert("Omega"@.len() == 5);
            assert("times"@.len() == 5);
            assert("cdot"@.len() == 4);
            assert("pm"@.len() == 2);
            assert("le"@.len() == 2);
            assert("leq"@.len() == 3);
            assert("ge"@.len() == 2);
            assert("geq"@.len() == 3);
            assert("neq"@.len() == 3);
            assert("approx"@.len() == 6);
            assert("infty"@.len() == 5);
            assert("sum"@.len() == 3);
            assert("prod"@.len() == 4);
            assert("int"@.len() == 3);
            assert("partial"@.len() == 7);
            assert("nabla"@.len() == 5);
            assert("to"@.len() == 2);
            assert("rightarrow"@.len() == 10);
            assert("leftarrow"@[0] == 'l');
            assert("leftarrow"@ != "Leftarrow"@);
            assert("Rightarrow"@.len() == 10);
            assert("frac"@.len() == 4);
            assert("sqrt"@.len() == 4);
            assert("⇐"@ =~= seq!['\u{21d0}']);
            assert forall|j: int| 0 <= j < 9 implies is_ascii_alpha(#[trigger] "Leftarrow"@[j]) by {
                if j == 0 {} else if j == 1 {} else if j == 2 {} else if j == 3 {} else if j == 4 {} else if j == 5 {} else if j == 6 {} else if j == 7 {} else if j == 8 {}
            }
        }
}

proof fn lemma_alpha_run_exact(s: Seq<char>, a: int, b: int)
    requires
        0 <= a <= b <= s.len(),
        forall|m: int| a <= m < b ==> is_ascii_alpha(#[trigger] s[m]),
        b == s.len() || !is_ascii_alpha(s[b]),
    ensures
        alpha_run_end(s, a) == b,
    decreases b - a,
{
    if a < b {
        lemma_alpha_run_exact(s, a + 1, b);
    }
}

/// In any math text, a command of the table that is not followed by a
/// letter renders as its symbol, followed by the rendering of the rest:
/// `\geq` and `\ge` as `≥`, `\alpha` as `α`, `\to` as `→`, and so on.
pub proof fn lemma_symbol_command_renders(s: Seq<char>, i: int, k: int)
    requires
        0 <= k < latex_symbols().len(),
        0 <= i,
        i + 1 + latex_symbols()[k].0.len() <= s.len(),
        s[i] == '\\',
        s.subrange(i + 1, i + 1 + latex_symbols()[k].0.len()) == latex_symbols()[k].0,
        i + 1 + latex_symbols()[k].0.len() == s.len() || !is_ascii_alpha(
            s[i + 1 + latex_symbols()[k].0.len()],
        ),
    ensures
        frag_from(s, i) == seq![latex_symbols()[k].1] + frag_from(
            s,
            i + 1 + latex_symbols()[k].0.len(),
        ),
{
    let name = latex_symbols()[k].0;
    let end = i + 1 + name.len();
    lemma_latex_symbols(k);
    assert forall|m: int| i + 1 <= m < end implies is_ascii_alpha(#[trigger] s[m]) by {
        assert(s[m] == s.subrange(i + 1, end)[m - i - 1]);
        assert(is_ascii_alpha(name[m - i - 1]));
    }
    lemma_alpha_run_exact(s, i + 1, end);
    assert(command_end(s, i + 1) == end);
}

/// End of the run of ASCII letters that starts at `i`.
pub open spec fn alpha_run_end(s: Seq<char>, i: int) -> int
    decreases s.len() - i,
{
    if 0 <= i < s.len() && is_ascii_alpha(s[i]) {
        alpha_run_end(s, i + 1)
    } else {
        i
    }
}

/// End of the command name that starts at `i`: a run of ASCII letters, or
/// else the one character at `i`, or nothing at the end of the input.
pub open spec fn command_end(s: Seq<char>, i: int) -> int {
    let j = alpha_run_end(s, i);
    if j == i && 0 <= i < s.len() {
        i + 1
    } else {
        j
    }
}

/// Index of the `}` that closes a group, scanning from `j` with `depth`
/// groups open.
pub open spec fn group_close(s: Seq<char>, j: int, depth: nat) -> Option<int>
    decreases s.len() - j,
{
    if j < 0 || j >= s.len() {
        None
    } else if s[j] == '{' {
        group_close(s, j + 1, depth + 1)
    } else if s[j] == '}' {
        if depth <= 1 {
            Some(j)
        } else {
            group_close(s, j + 1, (depth - 1) as nat)
        }
    } else {
        group_close(s, j + 1, depth)
    }
}

/// The braced group that starts at `i`: its contents and the index after
/// its closing brace.
pub open spec fn group_at(s: Seq<char>, i: int) -> Option<(Seq<char>, int)> {
    if 0 <= i < s.len() && s[i] == '{' {
        match group_close(s, i + 1, 1) {
            Some(c) => Some((s.subrange(i + 1, c), c + 1)),
            None => None,
        }
    } else {
        None
    }
}

/// The argument of `^` or `_` at `i`: a braced group or a single character.
pub open spec fn atom_at(s: Seq<char>, i: int) -> Option<(Seq<char>, int)> {
    if i < 0 || i >= s.len() {
        None
    } else if s[i] == '{' {
        group_at(s, i)
    } else {
        Some((seq![s[i]], i + 1))
    }
}

pub proof fn lemma_alpha_run_end(s: Seq<char>, i: int)
    requires
        0 <= i <= s.len(),
    ensures
        i <= alpha_run_end(s, i) <= s.len(),
        forall|k: int| i <= k < alpha_run_end(s, i) ==> is_ascii_alpha(#[trigger] s[k]),
    decreases s.len() - i,
{
    if i < s.len() && is_ascii_alpha(s[i]) {
        lemma_alpha_run_end(s, i + 1);
    }
}

pub proof fn lemma_group_close(s: Seq<char>, j: int, depth: nat)
    ensures
        group_close(s, j, depth) matches Some(c) ==> 0 <= j <= c < s.len(),
    decreases s.len() - j,
{
    if 0 <= j < s.len() {
        if s[j] == '{' {
            lemma_group_close(s, j + 1, depth + 1);
        } else if s[j] == '}' {
            if depth > 1 {
                lemma_group_close(s, j + 1, (depth - 1) as nat);
            }
        } else {
            lemma_group_close(s, j + 1, depth);
        }
    }
}

pub proof fn lemma_group_at(s: Seq<char>, i: int)
    ensures
        group_at(s, i) matches Some((g, n)) ==> 0 <= i < n <= s.len() && g.len() == n - i - 2
            && g.len() < s.len(),
{
    lemma_group_close(s, i + 1, 1);
}

pub proof fn lemma_atom_at(s: Seq<char>, i: int)
    ensures
        atom_at(s, i) matches Some((g, n)) ==> 0 <= i < n <= s.len() && g.len() <= n - i,
{
    lemma_group_at(s, i);
}

/// The HTML for a LaTeX fragment, reading from index `i` to the end:
/// `\frac{a}{b}` and `\sqrt{a}` become nested spans, `^`/`_` with their
/// argument become `msup`/`msub` spans, known commands become their symbol
/// and other commands their bare name, braces vanish, HTML special
/// characters are escaped, and everything else is copied.
pub open spec fn frag_from(s: Seq<char>, i: int) -> Seq<char>
    decreases s.len(), s.len() - i,
{
    if i < 0 || i >= s.len() {
        Seq::empty()
    } else {
        let c = s[i];
        if c == '\\' {
            proof {
                lemma_alpha_run_end(s, i + 1);
            }
            let next = command_end(s, i + 1);
            let cmd = s.subrange(i + 1, next);
            if cmd == "frac"@ {
                proof {
                    lemma_group_at(s, next);
                }
                match group_at(s, next) {
                    Some((num, n1)) => {
                        proof {
                            lemma_group_at(s, n1);
                        }
                        match group_at(s, n1) {
                            Some((den, n2)) => "<span class=\"mfrac\"><span>"@ + frag_from(num, 0)
                                + "</span><span>"@ + frag_from(den, 0) + "</span></span>"@
                                + frag_from(s, n2),
                            None => "\\frac"@ + frag_from(s, next),
                        }
                    },
                    None => "\\frac"@ + frag_from(s, next),
                }
            } else if cmd == "sqrt"@ {
                proof {
                    lemma_group_at(s, next);
                }
                match group_at(s, next) {
                    Some((rad, n1)) => "<span class=\"msqrt\"><span>"@ + frag_from(rad, 0)
                        + "</span></span>"@ + frag_from(s, n1),
                    None => "\\sqrt"@ + frag_from(s, next),
                }
            } else {
                match symbol_spec(cmd) {
                    Some(sym) => sym + frag_from(s, next),
                    None => cmd + frag_from(s, next),
                }
            }
        } else if c == '^' || c == '_' {
            let class_name = if c == '^' {
                "msup"@
            } else {
                "msub"@
            };
            proof {
                lemma_atom_at(s, i + 1);
            }
            match atom_at(s, i + 1) {
                Some((v, n)) => "<span class=\""@ + class_name + "\">"@ + frag_from(v, 0)
                    + "</span>"@ + frag_from(s, n),
                None => seq![c] + frag_from(s, i + 1),
            }
        } else if c == '{' || c == '}' {
            frag_from(s, i + 1)
        } else if c == '&' || c == '<' || c == '>' || c == '"' || c == '\'' {
            escape_safe(seq![c]) + frag_from(s, i + 1)
        } else {
            seq![c] + frag_from(s, i + 1)
        }
    }
}

/// Characters that the math renderer treats specially.
pub open spec fn is_math_special(c: char) -> bool {
    c == '\\' || c == '^' || c == '_' || c == '{' || c == '}' || c == '&' || c == '<' || c == '>'
        || c == '"' || c == '\''
}

/// Text without commands, scripts, braces or HTML special characters
/// renders as itself.
pub proof fn lemma_plain_math_unchanged(s: Seq<char>, i: int)
    requires
        0 <= i <= s.len(),
        forall|k: int| 0 <= k < s.len() ==> !is_math_special(#[trigger] s[k]),
    ensures
        frag_from(s, i) == s.subrange(i, s.len() as int),
    decreases s.len() - i,
{
    if i < s.len() {
        assert(!is_math_special(s[i]));
        lemma_plain_math_unchanged(s, i + 1);
        assert(seq![s[i]] + s.subrange(i + 1, s.len() as int) =~= s.subrange(i, s.len() as int));
    } else {
        assert(s.subrange(i, s.len() as int) =~= Seq::<char>::empty());
    }
}

/// The HTML for a whole LaTeX fragment.
pub open spec fn fragment_html(s: Seq<char>) -> Seq<char> {
    frag_from(s, 0)
}

/// The span that `render` produces for `tex`.
pub open spec fn math_html(tex: Seq<char>, display: bool) -> Seq<char> {
    "<span class=\"math-render math-"@ + (if display {
        "display"@
    } else {
        "inline"@
    }) + "\">"@ + fragment_html(trim_seq(tex)) + "</span>"@
}

/// Renders a math fragment (trimmed) into a span whose class says whether it
/// is shown inline or as a display block.
pub fn render(tex: &str, display: bool) -> (r: String)
    ensures
        r@ == math_html(tex@, display),
{
    let trimmed = trim(tex);
    let body = render_fragment(trimmed.as_str());
    let mode = if display {
        "display"
    } else {
        "inline"
    };
    let mut out = String::new();
    push_str(&mut out, "<span class=\"math-render math-");
    push_str(&mut out, mode);
    push_str(&mut out, "\">");
    push_str(&mut out, body.as_str());
    push_str(&mut out, "</span>");
    out
}

/// The symbol for a known command name.
pub fn symbol_for(command: &str) -> (r: Option<&'static str>)
    ensures
        match r {
            Some(t) => symbol_spec(command@) == Some(t@),
            None => symbol_spec(command@) is None,
        },
{
    if str_eq(command, "alpha") {
        Some("α")
    } else if str_eq(command, "beta") {
        Some("β")
    } else if str_eq(command, "gamma") {
        Some("γ")
    } else if str_eq(command, "delta") {
        Some("δ")
    } else if str_eq(command, "epsilon") {
        Some("ε")
    } else if str_eq(command, "theta") {
        Some("θ")
    } else if str_eq(command, "lambda") {
        Some("λ")
    } else if str_eq(command, "mu") {
        Some("μ")
    } else if str_eq(command, "pi") {
        Some("π")
    } else if str_eq(command, "sigma") {
        Some("σ")
    } else if str_eq(command, "phi") {
        Some("φ")
    } else if str_eq(command, "omega") {
        Some("ω")
    } else if str_eq(command, "Gamma") {
        Some("Γ")
    } else if str_eq(command, "Delta") {
        Some("Δ")
    } else if str_eq(command, "Theta") {
        Some("Θ")
    } else if str_eq(command, "Lambda") {
        Some("Λ")
    } else if str_eq(command, "Pi") {
        Some("Π")
    } else if str_eq(command, "Sigma") {
        Some("Σ")
    } else if str_eq(command, "Phi") {
        Some("Φ")
    } else if str_eq(command, "Omega") {
        Some("Ω")
    } else if str_eq(command, "times") {
        Some("×")
    } else if str_eq(command, "cdot") {
        Some("·")
    } else if str_eq(command, "pm") {
        Some("±")
    } else if str_eq(command, "le") {
        Some("≤")
    } else if str_eq(command, "leq") {
        Some("≤")
    } else if str_eq(command, "ge") {
        Some("≥")
    } else if str_eq(command, "geq") {
        Some("≥")
    } else if str_eq(command, "neq") {
        Some("≠")
    } else if str_eq(command, "approx") {
        Some("≈")
    } else if str_eq(command, "infty") {
        Some("∞")
    } else if str_eq(command, "sum") {
        Some("∑")
    } else if str_eq(command, "prod") {
        Some("∏")
    } else if str_eq(command, "int") {
        Some("∫")
    } else if str_eq(command, "partial") {
        Some("∂")
    } else if str_eq(command, "nabla") {
        Some("∇")
    } else if str_eq(command, "to") {
        Some("→")
    } else if str_eq(command, "rightarrow") {
        Some("→")
    } else if str_eq(command, "leftarrow") {
        Some("←")
    } else if str_eq(command, "Rightarrow") {
        Some("⇒")
    } else if str_eq(command, "Leftarrow") {
        Some("⇐")
    } else {
        None
    }
}

/// Reads a command name starting at `index` (just after a backslash).
pub fn read_command(chars: &[char], index: usize) -> (r: (String, usize))
    requires
        index <= chars@.len(),
    ensures
        r.1 == command_end(chars@, index as int),
        r.0@ == chars@.subrange(index as int, r.1 as int),
{
    proof {
        lemma_alpha_run_end(chars@, index as int);
    }
    let start = index;
    let mut index = index;
    while index < chars.len() && is_ascii_alphabetic(chars[index])
        invariant
            start <= index <= chars@.len(),
            alpha_run_end(chars@, start as int) == alpha_run_end(chars@, index as int),
        decreases chars@.len() - index,
    {
        index = index + 1;
    }
    if start == index && index < chars.len() {
        index = index + 1;
    }
    (string_from_range(chars, start, index), index)
}

/// Reads the braced group that starts at `index`.
pub fn read_group(chars: &[char], index: usize) -> (r: Option<(String, usize)>)
    ensures
        match r {
            Some((g, n)) => group_at(chars@, index as int) == Some((g@, n as int)),
            None => group_at(chars@, index as int) is None,
        },
{
    if index >= chars.len() || chars[index] != '{' {
        return None;
    }
    let mut depth: usize = 1;
    let mut cursor: usize = index + 1;
    proof {
        lemma_group_close(chars@, cursor as int, depth as nat);
    }
    while cursor < chars.len()
        invariant
            index < cursor <= chars@.len(),
            1 <= depth <= cursor - index,
            chars@[index as int] == '{',
            group_close(chars@, index + 1, 1) == group_close(chars@, cursor as int, depth as nat),
        decreases chars@.len() - cursor,
    {
        let c = chars[cursor];
        if c == '{' {
            depth = depth + 1;
        } else if c == '}' {
            if depth == 1 {
                assert(group_close(chars@, cursor as int, depth as nat) == Some(cursor as int));
                let content = string_from_range(chars, index + 1, cursor);
                return Some((content, cursor + 1));
            }
            depth = depth - 1;
        }
        cursor = cursor + 1;
    }
    None
}

/// Reads the argument of `^` or `_`: a braced group or one character.
pub fn read_atom(chars: &[char], index: usize) -> (r: Option<(String, usize)>)
    ensures
        match r {
            Some((g, n)) => atom_at(chars@, index as int) == Some((g@, n as int)),
            None => atom_at(chars@, index as int) is None,
        },
{
    if index >= chars.len() {
        return None;
    }
    if chars[index] == '{' {
        return read_group(chars, index);
    }
    let s = string_from_range(chars, index, index + 1);
    assert(chars@.subrange(index as int, index + 1) =~= seq![chars@[index as int]]);
    Some((s, index + 1))
}

/// Whether `c` is an ASCII letter.
pub fn is_ascii_alphabetic(c: char) -> (r: bool)
    ensures
        r == is_ascii_alpha(c),
{
    ('a' <= c && c <= 'z') || ('A' <= c && c <= 'Z')
}

/// Renders a LaTeX fragment into HTML.
pub fn render_fragment(input: &str) -> (r: String)
    ensures
        r@ == fragment_html(input@),
    decreases input@.len(),
{
    let chars = chars_of(input);
    let ghost s = input@;
    let mut out = String::new();
    let mut index: usize = 0;
    while index < chars.len()
        invariant
            chars@ == s,
            s == input@,
            index <= s.len(),
            out@ + frag_from(s, index as int) == frag_from(s, 0),
        decreases s.len() - index,
    {
        let c = chars[index];
        let ghost before = out@;
        let ghost old_index = index;
        if c == '\\' {
            let (command, next) = read_command(&chars, index + 1);
            proof {
                lemma_alpha_run_end(s, index + 1);
            }
            if str_eq(command.as_str(), "frac") {
                proof {
                    lemma_group_at(s, next as int);
                }
                if let Some((num, n1)) = read_group(&chars, next) {
                    proof {
                        lemma_group_at(s, n1 as int);
                    }
                    if let Some((den, n2)) = read_group(&chars, n1) {
                        let num_html = render_fragment(num.as_str());
                        let den_html = render_fragment(den.as_str());
                        push_str(&mut out, "<span class=\"mfrac\"><span>");
                        push_str(&mut out, num_html.as_str());
                        push_str(&mut out, "</span><span>");
                        push_str(&mut out, den_html.as_str());
                        push_str(&mut out, "</span></span>");
                        index = n2;
                        assert(out@ + frag_from(s, index as int) =~= before + frag_from(s, old_index as int));
                        continue;
                    }
                }
                push_str(&mut out, "\\frac");
                index = next;
            } else if str_eq(command.as_str(), "sqrt") {
                proof {
                    lemma_group_at(s, next as int);
                }
                if let Some((rad, n1)) = read_group(&chars, next) {
                    let rad_html = render_fragment(rad.as_str());
                    push_str(&mut out, "<span class=\"msqrt\"><span>");
                    push_str(&mut out, rad_html.as_str());
                    push_str(&mut out, "</span></span>");
                    index = n1;
                    assert(out@ + frag_from(s, index as int) =~= before + frag_from(s, old_index as int));
                    continue;
                }
                push_str(&mut out, "\\sqrt");
                index = next;
            } else {
                match symbol_for(command.as_str()) {
                    Some(sym) => push_str(&mut out, sym),
                    None => push_str(&mut out, command.as_str()),
                }
                index = next;
            }
        } else if c == '^' || c == '_' {
            let class_name = if c == '^' {
                "msup"
            } else {
                "msub"
            };
            proof {
                lemma_atom_at(s, index + 1);
            }
            if let Some((value, next)) = read_atom(&chars, index + 1) {
                let value_html = render_fragment(value.as_str());
                push_str(&mut out, "<span class=\"");
                push_str(&mut out, class_name);
                push_str(&mut out, "\">");
                push_str(&mut out, value_html.as_str());
                push_str(&mut out, "</span>");
                index = next;
            } else {
                push_char(&mut out, c);
                index = index + 1;
            }
        } else if c == '{' || c == '}' {
            index = index + 1;
        } else if c == '&' || c == '<' || c == '>' || c == '"' || c == '\'' {
            let single = string_from_range(&chars, index, index + 1);
            assert(single@ =~= seq![c]);
            let escaped = encode_safe(single.as_str());
            push_str(&mut out, escaped.as_str());
            index = index + 1;
        } else {
            push_char(&mut out, c);
            index = index + 1;
        }
        assert(out@ + frag_from(s, index as int) =~= before + frag_from(s, old_index as int));
    }
    out
}

} // verus!
