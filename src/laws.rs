//! Properties of the emitted code that relate several listings.
use crate::listing::{
    at_sym, direct_address, goto_code, label_line, pop_code, push_code, return_label,
    scoped_label,
};
use crate::op_code::scoped;
use crate::text::decimal;
use vstd::prelude::*;
use vstd::string::*;

verus! {

/// Equal text with a common prefix and suffix has equal middles.
proof fn lemma_middle_cancel(p: Seq<char>, a: Seq<char>, b: Seq<char>, s: Seq<char>)
    requires
        p + a + s == p + b + s,
    ensures
        a == b,
{
    let x = p + a + s;
    assert(x.len() == p.len() + a.len() + s.len());
    assert(a =~= x.subrange(p.len() as int, (p.len() + a.len()) as int));
    assert(b =~= (p + b + s).subrange(p.len() as int, (p.len() + b.len()) as int));
}

proof fn lemma_static_line(unit: Seq<char>, offset: nat)
    ensures
        direct_address("static"@, offset, unit) == ("\t"@ + "@"@) + unit + ("."@ + decimal(
            offset,
        )),
        !scoped("static"@),
        "static"@ != "constant"@,
{
    reveal_strlit("static");
    reveal_strlit("temp");
    reveal_strlit("pointer");
    reveal_strlit("local");
    reveal_strlit("argument");
    reveal_strlit("this");
    reveal_strlit("that");
    reveal_strlit("constant");
    assert("static"@.len() == 6);
    assert("temp"@.len() == 4);
    assert("pointer"@.len() == 7);
    assert("local"@.len() == 5);
    assert("argument"@.len() == 8);
    assert("this"@.len() == 4);
    assert("that"@.len() == 4);
    assert("constant"@.len() == 8);
    assert(direct_address("static"@, offset, unit) =~= ("\t"@ + "@"@) + unit + ("."@ + decimal(
        offset,
    )));
}

/// Static variable `offset` of two units is addressed through the same
/// symbol exactly when the units are the same, both when pushed and when
/// popped: distinct units never share a static cell, and one unit's cell is
/// always the same.
pub proof fn static_cells_are_per_unit(a: Seq<char>, b: Seq<char>, offset: nat)
    ensures
        (direct_address("static"@, offset, a) == direct_address("static"@, offset, b)) == (a
            == b),
        push_code("static"@, offset, a)[0] == direct_address("static"@, offset, a),
        pop_code("static"@, offset, a)[0] == direct_address("static"@, offset, a),
        push_code("static"@, offset, b)[0] == direct_address("static"@, offset, b),
        pop_code("static"@, offset, b)[0] == direct_address("static"@, offset, b),
{
    lemma_static_line(a, offset);
    lemma_static_line(b, offset);
    if direct_address("static"@, offset, a) == direct_address("static"@, offset, b) {
        lemma_middle_cancel("\t"@ + "@"@, a, b, "."@ + decimal(offset));
    }
}

/// Whether `name` can name a function or a label: names of the language
/// never hold `$`.
pub open spec fn plain_name(name: Seq<char>) -> bool {
    forall|i: int| 0 <= i < name.len() ==> name[i] != '$'
}

/// Two qualified labels that agree up to and including their first `$`
/// come from the same function.
proof fn lemma_same_scope(f: Seq<char>, a: Seq<char>, g: Seq<char>, b: Seq<char>)
    requires
        plain_name(f),
        plain_name(g),
        scoped_label(f, a) == scoped_label(g, b),
    ensures
        f == g,
        a == b,
{
    reveal_strlit("$");
    let x = scoped_label(f, a);
    assert(x[f.len() as int] == '$');
    assert(scoped_label(g, b)[g.len() as int] == '$');
    if f.len() < g.len() {
        assert(x[f.len() as int] == g[f.len() as int]);
    }
    if g.len() < f.len() {
        assert(x[g.len() as int] == f[g.len() as int]);
    }
    assert(f =~= x.subrange(0, f.len() as int));
    assert(g =~= scoped_label(g, b).subrange(0, g.len() as int));
    assert(a =~= x.subrange((f.len() + 1) as int, x.len() as int));
    assert(b =~= scoped_label(g, b).subrange((g.len() + 1) as int, x.len() as int));
}

/// Labels of legal names are told apart by function and by text: the same
/// label text in two functions yields two different symbols, within one
/// function `goto` targets exactly the symbol that `label` defines, and no
/// such label takes the name of a call site's return address.
pub proof fn labels_are_per_function(f: Seq<char>, g: Seq<char>, a: Seq<char>, b: Seq<char>)
    requires
        plain_name(f),
        plain_name(g),
        plain_name(a),
        plain_name(b),
    ensures
        (scoped_label(f, a) == scoped_label(g, b)) == (f == g && a == b),
        (label_line(f, a) == label_line(g, b)) == (f == g && a == b),
        label_line(f, a) == "("@ + scoped_label(f, a) + ")"@,
        goto_code(f, a)[0] == at_sym(scoped_label(f, a)),
        forall|k: nat| scoped_label(f, #[trigger] return_label(k)) != scoped_label(g, b),
{
    if scoped_label(f, a) == scoped_label(g, b) {
        lemma_same_scope(f, a, g, b);
    }
    if label_line(f, a) == label_line(g, b) {
        lemma_middle_cancel("("@, scoped_label(f, a), scoped_label(g, b), ")"@);
        lemma_same_scope(f, a, g, b);
    }
    assert forall|k: nat| scoped_label(f, #[trigger] return_label(k)) != scoped_label(g, b) by {
        if scoped_label(f, return_label(k)) == scoped_label(g, b) {
            lemma_same_scope(f, return_label(k), g, b);
            reveal_strlit("$ret.");
            assert(return_label(k)[0] == '$');
            assert(b.len() > 0 ==> b[0] != '$');
            assert(return_label(k).len() > 0);
        }
    }
}

} // verus!
