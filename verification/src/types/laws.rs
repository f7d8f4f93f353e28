//! What holds of comparisons as a whole.
use crate::ast::TypeExpr;
use crate::text;
use crate::types::{self, Records, TypeModel};
use vstd::prelude::*;

verus! {

/// The fields of a record.
pub type Fields = Seq<(Seq<char>, TypeModel)>;

// ----- the order of the two types -----

/// No two fields have the same name.
pub open spec fn names_differ(fields: Fields) -> bool {
    forall|i: int, j: int|
        0 <= i < j < fields.len() ==> (#[trigger] fields[i]).0 != (#[trigger] fields[j]).0
}

/// No record written in the type has two fields of the same name.
pub open spec fn distinct(t: TypeModel) -> bool
    decreases t,
{
    match t {
        TypeModel::Record(fields) => names_differ(fields) && distinct_fields(fields),
        TypeModel::Result(a, b) => distinct(*a) && distinct(*b),
        _ => true,
    }
}

/// No record written in the types of some fields has two fields of the same name.
pub open spec fn distinct_fields(fields: Fields) -> bool
    decreases fields,
{
    fields.len() == 0 || (distinct_fields(fields.drop_last()) && distinct(fields.last().1))
}

/// No declared record, and none written in one, has two fields of the same name.
pub open spec fn distinct_records(reg: Records) -> bool {
    forall|x: Seq<char>| #[trigger]
        reg.dom().contains(x) ==> names_differ(reg[x]) && distinct_fields(reg[x])
}

proof fn lemma_distinct_field(fields: Fields, i: int)
    requires
        distinct_fields(fields),
        0 <= i < fields.len(),
    ensures
        distinct(fields[i].1),
    decreases fields.len(),
{
    if i < fields.len() - 1 {
        lemma_distinct_field(fields.drop_last(), i);
    }
}

/// Where names differ, a field is compared with the one of its name alone.
proof fn lemma_any_at(
    f: (Seq<char>, TypeModel),
    fb: Fields,
    from: nat,
    j: int,
    reg: Records,
    n: nat,
)
    requires
        names_differ(fb),
        from <= j < fb.len(),
        fb[j].0 == f.0,
    ensures
        types::compare_any(f, fb, from, reg, n) == types::compare(f.1, fb[j].1, reg, n),
    decreases fb.len() - from,
{
    if from == j {
        assert forall|k: int| from + 1 <= k < fb.len() implies (#[trigger] fb[k]).0 != f.0 by {
            assert(fb[j].0 != fb[k].0);
        }
        lemma_any_past(f, fb, from + 1, reg, n);
    } else {
        assert(fb[from as int].0 != fb[j].0);
        lemma_any_at(f, fb, from + 1, j, reg, n);
    }
}

/// A field whose name does not come any more matches nothing.
proof fn lemma_any_past(f: (Seq<char>, TypeModel), fb: Fields, from: nat, reg: Records, n: nat)
    requires
        forall|j: int| from <= j < fb.len() ==> (#[trigger] fb[j]).0 != f.0,
    ensures
        types::compare_any(f, fb, from, reg, n) == Some(false),
    decreases fb.len() - from,
{
    if from < fb.len() {
        assert(fb[from as int].0 != f.0);
        lemma_any_past(f, fb, from + 1, reg, n);
    }
}

/// Where all fields match, each does.
proof fn lemma_all_true(fa: Fields, i: nat, fb: Fields, reg: Records, n: nat, k: int)
    requires
        types::compare_all(fa, i, fb, reg, n) == Some(true),
        i <= k < fa.len(),
    ensures
        types::compare_any(fa[k], fb, 0, reg, n) == Some(true),
    decreases fa.len() - i,
{
    if i < k {
        lemma_all_true(fa, i + 1, fb, reg, n, k);
    }
}

/// Where not all fields match, one does not.
proof fn lemma_all_false(fa: Fields, i: nat, fb: Fields, reg: Records, n: nat) -> (k: int)
    requires
        types::compare_all(fa, i, fb, reg, n) == Some(false),
    ensures
        i <= k < fa.len(),
        types::compare_any(fa[k], fb, 0, reg, n) == Some(false),
    decreases fa.len() - i,
{
    if types::compare_any(fa[i as int], fb, 0, reg, n) == Some(true) {
        lemma_all_false(fa, i + 1, fb, reg, n)
    } else {
        i as int
    }
}

spec fn names_of(fields: Fields) -> Seq<Seq<char>> {
    fields.map_values(|f: (Seq<char>, TypeModel)| f.0)
}

/// As many names, each among the others: then the others are among them too.
proof fn lemma_same_names(fa: Fields, fb: Fields, k: int) -> (i: int)
    requires
        names_differ(fa),
        names_differ(fb),
        fa.len() == fb.len(),
        forall|i: int| 0 <= i < fa.len() ==> names_of(fb).contains((#[trigger] fa[i]).0),
        0 <= k < fb.len(),
    ensures
        0 <= i < fa.len(),
        fa[i].0 == fb[k].0,
{
    let a = names_of(fa);
    let b = names_of(fb);
    assert(a.no_duplicates()) by {
        assert forall|i: int, j: int| 0 <= i < a.len() && 0 <= j < a.len() && i != j implies a[i]
            != a[j] by {
            assert(fa[i].0 == a[i] && fa[j].0 == a[j]);
        }
    }
    assert(b.no_duplicates()) by {
        assert forall|i: int, j: int| 0 <= i < b.len() && 0 <= j < b.len() && i != j implies b[i]
            != b[j] by {
            assert(fb[i].0 == b[i] && fb[j].0 == b[j]);
        }
    }
    a.unique_seq_to_set();
    b.unique_seq_to_set();
    vstd::seq_lib::seq_to_set_is_finite(a);
    vstd::seq_lib::seq_to_set_is_finite(b);
    assert(a.to_set().subset_of(b.to_set())) by {
        assert forall|x: Seq<char>| a.to_set().contains(x) implies b.to_set().contains(x) by {
            let i = choose|i: int| 0 <= i < a.len() && a[i] == x;
            assert(fa[i].0 == x);
        }
    }
    vstd::set_lib::lemma_subset_equality(a.to_set(), b.to_set());
    assert(b[k] == fb[k].0);
    assert(b.to_set().contains(b[k]));
    assert(a.contains(b[k]));
    let i = choose|i: int| 0 <= i < a.len() && a[i] == b[k];
    assert(fa[i].0 == a[i]);
    i
}

/// Where every field of `fa` has its match in `fb`, every name of `fb` is one of
/// `fa`.
proof fn lemma_matched_names(fa: Fields, fb: Fields, reg: Records, n: nat, k: int) -> (i: int)
    requires
        names_differ(fa),
        names_differ(fb),
        fa.len() == fb.len(),
        types::compare_all(fa, 0, fb, reg, n) == Some(true),
        0 <= k < fb.len(),
    ensures
        0 <= i < fa.len(),
        fa[i].0 == fb[k].0,
{
    assert forall|i: int| 0 <= i < fa.len() implies names_of(fb).contains((#[trigger] fa[i]).0) by {
        lemma_all_true(fa, 0, fb, reg, n, i);
        if !names_of(fb).contains(fa[i].0) {
            assert forall|j: int| 0 <= j < fb.len() implies (#[trigger] fb[j]).0 != fa[i].0 by {
                assert(names_of(fb)[j] == fb[j].0);
            }
            lemma_any_past(fa[i], fb, 0, reg, n);
        }
    }
    lemma_same_names(fa, fb, k)
}

proof fn lemma_symmetric(a: TypeModel, b: TypeModel, reg: Records, n: nat, m: nat)
    requires
        distinct(a),
        distinct(b),
        distinct_records(reg),
        types::compare(a, b, reg, n) is Some,
        types::compare(b, a, reg, m) is Some,
    ensures
        types::compare(a, b, reg, n) == types::compare(b, a, reg, m),
    decreases n + m, 1nat,
{
    let less = (n - 1) as nat;
    let down = (m - 1) as nat;
    match (a, b) {
        (TypeModel::Unknown, _) => {},
        (_, TypeModel::Unknown) => {},
        (TypeModel::Named(x), TypeModel::Named(y)) => {},
        (TypeModel::Named(x), _) => if reg.dom().contains(x) {
            lemma_same_outcome(TypeModel::Record(reg[x]), b, reg, less, down);
        },
        (_, TypeModel::Named(y)) => if reg.dom().contains(y) {
            lemma_same_outcome(TypeModel::Record(reg[y]), a, reg, less, down);
        },
        (TypeModel::Result(a1, a2), TypeModel::Result(b1, b2)) => {
            lemma_symmetric(*a1, *b1, reg, less, down);
            if types::compare(*a1, *b1, reg, less) == Some(true) {
                lemma_symmetric(*a2, *b2, reg, less, down);
            }
        },
        (TypeModel::Record(fa), TypeModel::Record(fb)) => if fa.len() == fb.len() {
            lemma_no_clash(fa, fb, reg, less, down);
            lemma_no_clash(fb, fa, reg, down, less);
        },
        _ => {},
    }
}

proof fn lemma_same_outcome(a: TypeModel, b: TypeModel, reg: Records, n: nat, m: nat)
    requires
        types::compare(a, b, reg, n) is Some,
        types::compare(a, b, reg, m) is Some,
    ensures
        types::compare(a, b, reg, n) == types::compare(a, b, reg, m),
{
    if n <= m {
        types::law_depth_is_immaterial(a, b, reg, n, m);
    } else {
        types::law_depth_is_immaterial(a, b, reg, m, n);
    }
}

proof fn lemma_no_clash(fa: Fields, fb: Fields, reg: Records, n: nat, m: nat)
    requires
        names_differ(fa),
        names_differ(fb),
        distinct_fields(fa),
        distinct_fields(fb),
        distinct_records(reg),
        fa.len() == fb.len(),
        types::compare_all(fa, 0, fb, reg, n) is Some,
        types::compare_all(fb, 0, fa, reg, m) is Some,
    ensures
        types::compare_all(fa, 0, fb, reg, n) == Some(true) ==> types::compare_all(
            fb,
            0,
            fa,
            reg,
            m,
        ) == Some(true),
    decreases n + m, 2nat,
{
    if types::compare_all(fa, 0, fb, reg, n) == Some(true) && types::compare_all(
        fb,
        0,
        fa,
        reg,
        m,
    ) == Some(false) {
        let k = lemma_all_false(fb, 0, fa, reg, m);
        let i = lemma_matched_names(fa, fb, reg, n, k);
        lemma_all_true(fa, 0, fb, reg, n, i);
        lemma_any_at(fa[i], fb, 0, k, reg, n);
        lemma_any_at(fb[k], fa, 0, i, reg, m);
        lemma_distinct_field(fa, i);
        lemma_distinct_field(fb, k);
        lemma_symmetric(fa[i].1, fb[k].1, reg, n, m);
    }
}

/// The order of the two types does not matter, where no record has two fields of
/// the same name and both comparisons come to an end.
pub proof fn law_compatible_symmetric(a: TypeModel, b: TypeModel, reg: Records)
    requires
        distinct(a),
        distinct(b),
        distinct_records(reg),
        types::comparable(a, b, reg),
        types::comparable(b, a, reg),
    ensures
        types::goes_with(a, b, reg) == types::goes_with(b, a, reg),
{
    lemma_symmetric(a, b, reg, u64::MAX as nat, u64::MAX as nat);
}

// ----- knowing less -----

/// `v` is `t` with some of its parts, at any depth, replaced by `Unknown`.
pub open spec fn vaguer(v: TypeModel, t: TypeModel) -> bool
    decreases t,
{
    match (v, t) {
        (TypeModel::Unknown, _) => true,
        (TypeModel::Result(v1, v2), TypeModel::Result(t1, t2)) => vaguer(*v1, *t1) && vaguer(
            *v2,
            *t2,
        ),
        (TypeModel::Record(fv), TypeModel::Record(ft)) => vaguer_fields(fv, ft),
        _ => v == t,
    }
}

/// The same fields, with some parts of their types replaced by `Unknown`.
pub open spec fn vaguer_fields(fv: Fields, ft: Fields) -> bool
    decreases ft,
{
    if ft.len() == 0 {
        fv.len() == 0
    } else {
        &&& fv.len() == ft.len()
        &&& vaguer_fields(fv.drop_last(), ft.drop_last())
        &&& fv.last().0 == ft.last().0
        &&& vaguer(fv.last().1, ft.last().1)
    }
}

proof fn lemma_vaguer_field(fv: Fields, ft: Fields, i: int)
    requires
        vaguer_fields(fv, ft),
        0 <= i < ft.len(),
    ensures
        fv.len() == ft.len(),
        fv[i].0 == ft[i].0,
        vaguer(fv[i].1, ft[i].1),
    decreases ft.len(),
{
    if i < ft.len() - 1 {
        lemma_vaguer_field(fv.drop_last(), ft.drop_last(), i);
    }
}

proof fn lemma_vaguer_self(t: TypeModel)
    ensures
        vaguer(t, t),
    decreases t,
{
    match t {
        TypeModel::Result(a, b) => {
            lemma_vaguer_self(*a);
            lemma_vaguer_self(*b);
        },
        TypeModel::Record(fields) => {
            lemma_vaguer_fields_self(fields);
        },
        _ => {},
    }
}

proof fn lemma_vaguer_fields_self(fields: Fields)
    ensures
        vaguer_fields(fields, fields),
    decreases fields,
{
    if fields.len() > 0 {
        lemma_vaguer_fields_self(fields.drop_last());
        lemma_vaguer_self(fields.last().1);
    }
}

proof fn lemma_vaguer_goes(
    a: TypeModel,
    b: TypeModel,
    va: TypeModel,
    vb: TypeModel,
    reg: Records,
    n: nat,
    m: nat,
)
    requires
        vaguer(va, a),
        vaguer(vb, b),
        types::compare(a, b, reg, n) == Some(true),
        types::compare(va, vb, reg, m) is Some,
    ensures
        types::compare(va, vb, reg, m) == Some(true),
    decreases n, 0nat, 0nat,
{
    let less = (n - 1) as nat;
    let down = (m - 1) as nat;
    if !(va is Unknown) && !(vb is Unknown) {
        match (a, b) {
            (TypeModel::Named(x), TypeModel::Named(y)) => {},
            (TypeModel::Named(x), _) => if reg.dom().contains(x) {
                let record = TypeModel::Record(reg[x]);
                lemma_vaguer_self(record);
                lemma_vaguer_goes(record, b, record, vb, reg, less, down);
            },
            (_, TypeModel::Named(y)) => if reg.dom().contains(y) {
                let record = TypeModel::Record(reg[y]);
                lemma_vaguer_self(record);
                lemma_vaguer_goes(record, a, record, va, reg, less, down);
            },
            (TypeModel::Result(a1, a2), TypeModel::Result(b1, b2)) => {
                let v1 = *va->Result_0;
                let v2 = *va->Result_1;
                let w1 = *vb->Result_0;
                let w2 = *vb->Result_1;
                lemma_vaguer_goes(*a1, *b1, v1, w1, reg, less, down);
                lemma_vaguer_goes(*a2, *b2, v2, w2, reg, less, down);
            },
            (TypeModel::Record(fa), TypeModel::Record(fb)) => {
                let fv = va->Record_0;
                let fw = vb->Record_0;
                lemma_vaguer_len(fv, fa);
                lemma_vaguer_len(fw, fb);
                lemma_vaguer_all(fa, fb, fv, fw, 0, reg, less, down);
            },
            _ => {},
        }
    }
}

proof fn lemma_vaguer_len(fv: Fields, ft: Fields)
    requires
        vaguer_fields(fv, ft),
    ensures
        fv.len() == ft.len(),
{
}

proof fn lemma_vaguer_all(
    fa: Fields,
    fb: Fields,
    fv: Fields,
    fw: Fields,
    i: nat,
    reg: Records,
    n: nat,
    m: nat,
)
    requires
        vaguer_fields(fv, fa),
        vaguer_fields(fw, fb),
        types::compare_all(fa, i, fb, reg, n) == Some(true),
        types::compare_all(fv, i, fw, reg, m) is Some,
    ensures
        types::compare_all(fv, i, fw, reg, m) == Some(true),
    decreases n, 2nat, fa.len() - i,
{
    lemma_vaguer_len(fv, fa);
    if i < fa.len() {
        lemma_vaguer_field(fv, fa, i as int);
        lemma_vaguer_any(fa[i as int], fb, fv[i as int], fw, 0, reg, n, m);
        lemma_vaguer_all(fa, fb, fv, fw, i + 1, reg, n, m);
    }
}

proof fn lemma_vaguer_any(
    f: (Seq<char>, TypeModel),
    fb: Fields,
    v: (Seq<char>, TypeModel),
    fw: Fields,
    j: nat,
    reg: Records,
    n: nat,
    m: nat,
)
    requires
        v.0 == f.0,
        vaguer(v.1, f.1),
        vaguer_fields(fw, fb),
        types::compare_any(f, fb, j, reg, n) == Some(true),
        types::compare_any(v, fw, j, reg, m) is Some,
    ensures
        types::compare_any(v, fw, j, reg, m) == Some(true),
    decreases n, 1nat, fb.len() - j,
{
    lemma_vaguer_len(fw, fb);
    if j < fb.len() {
        lemma_vaguer_field(fw, fb, j as int);
        if f.0 == fb[j as int].0 && types::compare(f.1, fb[j as int].1, reg, n) == Some(true) {
            lemma_vaguer_goes(f.1, fb[j as int].1, v.1, fw[j as int].1, reg, n, m);
        } else if v.0 == fw[j as int].0 && types::compare(v.1, fw[j as int].1, reg, m) == Some(
            true,
        ) {
        } else {
            lemma_vaguer_any(f, fb, v, fw, j + 1, reg, n, m);
        }
    }
}

/// Knowing less never makes a type error: where two types go together, they
/// still do with parts of either replaced by `Unknown`, where the comparison
/// comes to an end.
pub proof fn law_knowing_less_makes_no_error(
    a: TypeModel,
    b: TypeModel,
    va: TypeModel,
    vb: TypeModel,
    reg: Records,
)
    requires
        types::goes_with(a, b, reg),
        vaguer(va, a),
        vaguer(vb, b),
        types::comparable(va, vb, reg),
    ensures
        types::goes_with(va, vb, reg),
{
    lemma_vaguer_goes(a, b, va, vb, reg, u64::MAX as nat, u64::MAX as nat);
}

// ----- comparisons that come to an end -----

/// The name is written somewhere in the type.
pub open spec fn mentions(t: TypeModel, name: Seq<char>) -> bool
    decreases t,
{
    match t {
        TypeModel::Named(x) => x == name,
        TypeModel::Record(fields) => fields_mention(fields, name),
        TypeModel::Result(a, b) => mentions(*a, name) || mentions(*b, name),
        _ => false,
    }
}

/// The name is written somewhere in the types of some fields.
pub open spec fn fields_mention(fields: Fields, name: Seq<char>) -> bool
    decreases fields,
{
    fields.len() > 0 && (fields_mention(fields.drop_last(), name) || mentions(
        fields.last().1,
        name,
    ))
}

/// One declared record mentions another.
pub open spec fn leads(reg: Records, x: Seq<char>, y: Seq<char>) -> bool {
    reg.dom().contains(x) && reg.dom().contains(y) && fields_mention(reg[x], y)
}

/// Each record of the list mentions the next.
pub open spec fn is_chain(reg: Records, chain: Seq<Seq<char>>) -> bool {
    &&& forall|i: int| 0 <= i < chain.len() - 1 ==> leads(reg, #[trigger] chain[i], chain[i + 1])
    &&& forall|i: int| 0 <= i < chain.len() ==> reg.dom().contains(#[trigger] chain[i])
}

/// One record mentions another, itself or through others.
pub open spec fn reaches(reg: Records, x: Seq<char>, y: Seq<char>) -> bool {
    exists|chain: Seq<Seq<char>>| #[trigger]
        is_chain(reg, chain) && chain.len() >= 2 && chain[0] == x && chain.last() == y
}

/// No declared record reaches itself.
pub open spec fn acyclic(reg: Records) -> bool {
    forall|x: Seq<char>| !#[trigger] reaches(reg, x, x)
}

/// How many constructors a type is written with once its names are replaced by
/// the records they stand for, `levels` times.
pub open spec fn full_weight(t: TypeModel, reg: Records, levels: nat) -> nat
    decreases levels, t,
{
    match t {
        TypeModel::Named(x) => if levels > 0 && reg.dom().contains(x) {
            2 + full_weights(reg[x], reg, (levels - 1) as nat)
        } else {
            1
        },
        TypeModel::Record(fields) => 1 + full_weights(fields, reg, levels),
        TypeModel::Result(a, b) => 1 + full_weight(*a, reg, levels) + full_weight(*b, reg, levels),
        _ => 1,
    }
}

/// The same, of the types of some fields together.
pub open spec fn full_weights(fields: Fields, reg: Records, levels: nat) -> nat
    decreases levels, fields,
{
    if fields.len() == 0 {
        0
    } else {
        full_weights(fields.drop_last(), reg, levels) + full_weight(fields.last().1, reg, levels)
    }
}

spec fn has_chain(reg: Records, x: Seq<char>, k: nat) -> bool {
    exists|chain: Seq<Seq<char>>| #[trigger]
        is_chain(reg, chain) && chain.len() == k + 1 && chain[0] == x
}

spec fn longest(reg: Records, x: Seq<char>, k: nat) -> nat
    decreases k,
{
    if k == 0 || has_chain(reg, x, k) {
        k
    } else {
        longest(reg, x, (k - 1) as nat)
    }
}

/// How far a record leads.
spec fn rank(reg: Records, x: Seq<char>) -> nat {
    longest(reg, x, reg.dom().len())
}

/// No chain is longer than there are records.
proof fn lemma_chain_bound(reg: Records, chain: Seq<Seq<char>>)
    requires
        reg.dom().finite(),
        acyclic(reg),
        is_chain(reg, chain),
    ensures
        chain.len() <= reg.dom().len(),
{
    assert(chain.no_duplicates()) by {
        assert forall|i: int, j: int|
            0 <= i < chain.len() && 0 <= j < chain.len() && i != j implies chain[i] != chain[j] by {
            if chain[i] == chain[j] {
                if i < j {
                    lemma_part_reaches(reg, chain, i, j);
                } else {
                    lemma_part_reaches(reg, chain, j, i);
                }
            }
        }
    }
    chain.unique_seq_to_set();
    assert(chain.to_set().subset_of(reg.dom()));
    vstd::set_lib::lemma_len_subset(chain.to_set(), reg.dom());
}

proof fn lemma_part_reaches(reg: Records, chain: Seq<Seq<char>>, i: int, j: int)
    requires
        is_chain(reg, chain),
        0 <= i < j < chain.len(),
    ensures
        reaches(reg, chain[i], chain[j]),
{
    let part = chain.subrange(i, j + 1);
    assert forall|k: int| 0 <= k < part.len() - 1 implies leads(
        reg,
        #[trigger] part[k],
        part[k + 1],
    ) by {
        assert(part[k] == chain[i + k]);
        assert(leads(reg, chain[i + k], chain[i + k + 1]));
        assert(part[k + 1] == chain[i + k + 1]);
    }
    assert(is_chain(reg, part));
    assert(part[0] == chain[i] && part.last() == chain[j]);
}

proof fn lemma_longest_is(reg: Records, x: Seq<char>, k: nat)
    requires
        reg.dom().contains(x),
    ensures
        has_chain(reg, x, longest(reg, x, k)),
        longest(reg, x, k) <= k,
    decreases k,
{
    if k == 0 {
        let chain = seq![x];
        assert(is_chain(reg, chain));
        assert(chain.len() == 1 && chain[0] == x);
    } else if !has_chain(reg, x, k) {
        lemma_longest_is(reg, x, (k - 1) as nat);
    }
}

proof fn lemma_longest_most(reg: Records, x: Seq<char>, j: nat, k: nat)
    requires
        has_chain(reg, x, j),
        j <= k,
    ensures
        longest(reg, x, k) >= j,
    decreases k,
{
    if k > j && !has_chain(reg, x, k) {
        lemma_longest_most(reg, x, j, (k - 1) as nat);
    }
}

/// A record leads further than those it mentions.
proof fn lemma_rank(reg: Records, x: Seq<char>, y: Seq<char>)
    requires
        reg.dom().finite(),
        acyclic(reg),
        leads(reg, x, y),
    ensures
        rank(reg, y) < rank(reg, x),
{
    let far = rank(reg, y);
    lemma_longest_is(reg, y, reg.dom().len());
    let chain = choose|chain: Seq<Seq<char>>| #[trigger]
        is_chain(reg, chain) && chain.len() == far + 1 && chain[0] == y;
    let more = seq![x] + chain;
    assert forall|i: int| 0 <= i < more.len() - 1 implies leads(
        reg,
        #[trigger] more[i],
        more[i + 1],
    ) by {
        if i > 0 {
            assert(more[i] == chain[i - 1]);
            assert(leads(reg, chain[i - 1], chain[i - 1 + 1]));
            assert(more[i + 1] == chain[i]);
        } else {
            assert(more[1] == chain[0]);
        }
    }
    assert forall|i: int| 0 <= i < more.len() implies reg.dom().contains(#[trigger] more[i]) by {
        if i > 0 {
            assert(more[i] == chain[i - 1]);
        }
    }
    assert(is_chain(reg, more));
    assert(more.len() == (far + 1) + 1 && more[0] == x);
    lemma_chain_bound(reg, more);
    assert(has_chain(reg, x, far + 1));
    lemma_longest_most(reg, x, far + 1, reg.dom().len());
}

/// The records that a type mentions lead less far than `levels`.
spec fn within(t: TypeModel, reg: Records, levels: nat) -> bool {
    forall|y: Seq<char>| #[trigger]
        mentions(t, y) && reg.dom().contains(y) ==> rank(reg, y) < levels
}

proof fn lemma_fields_mention(fields: Fields, i: int, y: Seq<char>)
    requires
        0 <= i < fields.len(),
        mentions(fields[i].1, y),
    ensures
        fields_mention(fields, y),
    decreases fields.len(),
{
    if i < fields.len() - 1 {
        lemma_fields_mention(fields.drop_last(), i, y);
    }
}

proof fn lemma_full_field(fields: Fields, reg: Records, levels: nat, i: int)
    requires
        0 <= i < fields.len(),
    ensures
        full_weight(fields[i].1, reg, levels) <= full_weights(fields, reg, levels),
    decreases fields.len(),
{
    if i < fields.len() - 1 {
        lemma_full_field(fields.drop_last(), reg, levels, i);
    }
}

proof fn lemma_full_positive(t: TypeModel, reg: Records, levels: nat)
    ensures
        full_weight(t, reg, levels) >= 1,
{
}

proof fn lemma_ends(
    a: TypeModel,
    la: nat,
    b: TypeModel,
    lb: nat,
    reg: Records,
    n: nat,
)
    requires
        reg.dom().finite(),
        acyclic(reg),
        within(a, reg, la),
        within(b, reg, lb),
        n >= full_weight(a, reg, la) + full_weight(b, reg, lb),
    ensures
        types::compare(a, b, reg, n) is Some,
    decreases n, 0nat, 0nat,
{
    lemma_full_positive(a, reg, la);
    lemma_full_positive(b, reg, lb);
    let below = (n - 1) as nat;
    match (a, b) {
        (TypeModel::Unknown, _) => {},
        (_, TypeModel::Unknown) => {},
        (TypeModel::Named(x), TypeModel::Named(y)) => {},
        (TypeModel::Named(x), _) => if reg.dom().contains(x) {
            lemma_unfolded(x, reg, la);
            lemma_ends(TypeModel::Record(reg[x]), (la - 1) as nat, b, lb, reg, below);
        },
        (_, TypeModel::Named(y)) => if reg.dom().contains(y) {
            lemma_unfolded(y, reg, lb);
            lemma_ends(TypeModel::Record(reg[y]), (lb - 1) as nat, a, la, reg, below);
        },
        (TypeModel::Result(a1, a2), TypeModel::Result(b1, b2)) => {
            lemma_full_positive(*a1, reg, la);
            lemma_full_positive(*a2, reg, la);
            lemma_full_positive(*b1, reg, lb);
            lemma_full_positive(*b2, reg, lb);
            assert(within(*a1, reg, la) && within(*a2, reg, la)) by {
                assert forall|y: Seq<char>| mentions(*a1, y) || mentions(*a2, y) implies mentions(
                    a,
                    y,
                ) by {}
            }
            assert(within(*b1, reg, lb) && within(*b2, reg, lb)) by {
                assert forall|y: Seq<char>| mentions(*b1, y) || mentions(*b2, y) implies mentions(
                    b,
                    y,
                ) by {}
            }
            lemma_ends(*a1, la, *b1, lb, reg, below);
            lemma_ends(*a2, la, *b2, lb, reg, below);
        },
        (TypeModel::Record(fa), TypeModel::Record(fb)) => {
            lemma_ends_all(fa, 0, la, fb, lb, reg, below);
        },
        _ => {},
    }
}

/// A name replaced by its record leads less far and weighs less.
proof fn lemma_unfolded(x: Seq<char>, reg: Records, levels: nat)
    requires
        reg.dom().finite(),
        acyclic(reg),
        reg.dom().contains(x),
        within(TypeModel::Named(x), reg, levels),
    ensures
        levels > 0,
        within(TypeModel::Record(reg[x]), reg, (levels - 1) as nat),
        full_weight(TypeModel::Record(reg[x]), reg, (levels - 1) as nat) + 1 == full_weight(
            TypeModel::Named(x),
            reg,
            levels,
        ),
{
    assert(mentions(TypeModel::Named(x), x));
    let record = TypeModel::Record(reg[x]);
    assert forall|y: Seq<char>| #[trigger] mentions(record, y) && reg.dom().contains(y) implies rank(
        reg,
        y,
    ) < (levels - 1) as nat by {
        assert(leads(reg, x, y));
        lemma_rank(reg, x, y);
    }
}

proof fn lemma_ends_all(
    fa: Fields,
    i: nat,
    la: nat,
    fb: Fields,
    lb: nat,
    reg: Records,
    n: nat,
)
    requires
        reg.dom().finite(),
        acyclic(reg),
        within(TypeModel::Record(fa), reg, la),
        within(TypeModel::Record(fb), reg, lb),
        n >= full_weights(fa, reg, la) + full_weights(fb, reg, lb),
    ensures
        types::compare_all(fa, i, fb, reg, n) is Some,
    decreases n, 2nat, fa.len() - i,
{
    if i < fa.len() {
        lemma_ends_any(fa, i, la, fb, 0, lb, reg, n);
        lemma_ends_all(fa, i + 1, la, fb, lb, reg, n);
    }
}

proof fn lemma_ends_any(
    fa: Fields,
    i: nat,
    la: nat,
    fb: Fields,
    j: nat,
    lb: nat,
    reg: Records,
    n: nat,
)
    requires
        reg.dom().finite(),
        acyclic(reg),
        i < fa.len(),
        within(TypeModel::Record(fa), reg, la),
        within(TypeModel::Record(fb), reg, lb),
        n >= full_weights(fa, reg, la) + full_weights(fb, reg, lb),
    ensures
        types::compare_any(fa[i as int], fb, j, reg, n) is Some,
    decreases n, 1nat, fb.len() - j,
{
    if j < fb.len() {
        lemma_full_field(fa, reg, la, i as int);
        lemma_full_field(fb, reg, lb, j as int);
        lemma_within_field(fa, reg, la, i as int);
        lemma_within_field(fb, reg, lb, j as int);
        lemma_ends(fa[i as int].1, la, fb[j as int].1, lb, reg, n);
        lemma_ends_any(fa, i, la, fb, j + 1, lb, reg, n);
    }
}

proof fn lemma_within_field(fields: Fields, reg: Records, levels: nat, i: int)
    requires
        0 <= i < fields.len(),
        within(TypeModel::Record(fields), reg, levels),
    ensures
        within(fields[i].1, reg, levels),
{
    assert forall|y: Seq<char>| #[trigger]
        mentions(fields[i].1, y) && reg.dom().contains(y) implies rank(reg, y) < levels by {
        lemma_fields_mention(fields, i, y);
        assert(mentions(TypeModel::Record(fields), y));
    }
}

/// The depth at which the comparison of two types has come to an end, where no
/// declared record reaches itself.
pub open spec fn enough(a: TypeModel, b: TypeModel, reg: Records) -> nat {
    let levels = reg.dom().len() + 1;
    full_weight(a, reg, levels) + full_weight(b, reg, levels)
}

/// Where no declared record reaches itself, every comparison comes to an end.
pub proof fn law_acyclic_records_compare(a: TypeModel, b: TypeModel, reg: Records, n: nat)
    requires
        reg.dom().finite(),
        acyclic(reg),
        n >= enough(a, b, reg),
    ensures
        types::compare(a, b, reg, n) is Some,
{
    let levels = reg.dom().len() + 1;
    assert forall|y: Seq<char>| reg.dom().contains(y) implies #[trigger] rank(reg, y) < levels by {
        lemma_longest_is(reg, y, reg.dom().len());
    }
    lemma_ends(a, levels, b, levels, reg, n);
}

/// Where no declared record reaches itself and no record has two fields of the
/// same name, a type goes with itself and the order of two types does not
/// matter.
pub proof fn law_acyclic_records_are_orderly(a: TypeModel, b: TypeModel, reg: Records)
    requires
        reg.dom().finite(),
        acyclic(reg),
        distinct(a),
        distinct(b),
        distinct_records(reg),
        enough(a, b, reg) <= u64::MAX,
        enough(a, a, reg) <= u64::MAX,
    ensures
        types::comparable(a, b, reg),
        types::goes_with(a, b, reg) == types::goes_with(b, a, reg),
        types::goes_with(a, a, reg),
{
    law_acyclic_records_compare(a, b, reg, u64::MAX as nat);
    law_acyclic_records_compare(b, a, reg, u64::MAX as nat);
    law_acyclic_records_compare(a, a, reg, u64::MAX as nat);
    law_compatible_symmetric(a, b, reg);
    types::law_compatible_reflexive(a, reg);
}

proof fn lemma_vaguer_weight(v: TypeModel, t: TypeModel, reg: Records, levels: nat)
    requires
        vaguer(v, t),
    ensures
        full_weight(v, reg, levels) <= full_weight(t, reg, levels),
    decreases t,
{
    match (v, t) {
        (TypeModel::Unknown, _) => {},
        (TypeModel::Result(v1, v2), TypeModel::Result(t1, t2)) => {
            lemma_vaguer_weight(*v1, *t1, reg, levels);
            lemma_vaguer_weight(*v2, *t2, reg, levels);
        },
        (TypeModel::Record(fv), TypeModel::Record(ft)) => {
            lemma_vaguer_weights(fv, ft, reg, levels);
        },
        _ => {},
    }
}

proof fn lemma_vaguer_weights(fv: Fields, ft: Fields, reg: Records, levels: nat)
    requires
        vaguer_fields(fv, ft),
    ensures
        full_weights(fv, reg, levels) <= full_weights(ft, reg, levels),
    decreases ft,
{
    if ft.len() > 0 {
        lemma_vaguer_weights(fv.drop_last(), ft.drop_last(), reg, levels);
        lemma_vaguer_weight(fv.last().1, ft.last().1, reg, levels);
    }
}

/// Where no declared record reaches itself, knowing less never makes a type
/// error: the comparison of the vaguer types comes to an end too.
pub proof fn law_acyclic_knowing_less_makes_no_error(
    a: TypeModel,
    b: TypeModel,
    va: TypeModel,
    vb: TypeModel,
    reg: Records,
)
    requires
        reg.dom().finite(),
        acyclic(reg),
        enough(a, b, reg) <= u64::MAX,
        types::goes_with(a, b, reg),
        vaguer(va, a),
        vaguer(vb, b),
    ensures
        types::goes_with(va, vb, reg),
{
    let levels = reg.dom().len() + 1;
    lemma_vaguer_weight(va, a, reg, levels);
    lemma_vaguer_weight(vb, b, reg, levels);
    law_acyclic_records_compare(va, vb, reg, u64::MAX as nat);
    law_knowing_less_makes_no_error(a, b, va, vb, reg);
}

// ----- types in writing -----

/// No name in the type holds the mark by which `Unknown` is printed.
pub open spec fn unmarked(t: TypeModel) -> bool
    decreases t,
{
    match t {
        TypeModel::Named(x) => !x.contains('?'),
        TypeModel::Record(fields) => unmarked_fields(fields),
        TypeModel::Result(a, b) => unmarked(*a) && unmarked(*b),
        _ => true,
    }
}

/// No name in some fields holds the mark.
pub open spec fn unmarked_fields(fields: Fields) -> bool
    decreases fields,
{
    fields.len() == 0 || (unmarked_fields(fields.drop_last()) && !fields.last().0.contains('?')
        && unmarked(fields.last().1))
}

proof fn lemma_sum_lacks(a: Seq<char>, b: Seq<char>, c: char)
    requires
        !a.contains(c),
        !b.contains(c),
    ensures
        !(a + b).contains(c),
{
    if (a + b).contains(c) {
        let i = choose|i: int| 0 <= i < (a + b).len() && (a + b)[i] == c;
        if i < a.len() {
            assert(a[i] == c);
        } else {
            assert(b[i - a.len()] == c);
        }
    }
}

proof fn lemma_joined_lacks(parts: Seq<Seq<char>>, sep: Seq<char>, c: char)
    requires
        !sep.contains(c),
        forall|i: int| 0 <= i < parts.len() ==> !(#[trigger] parts[i]).contains(c),
    ensures
        !text::joined(parts, sep).contains(c),
    decreases parts.len(),
{
    if parts.len() > 1 {
        let less = parts.drop_last();
        assert forall|i: int| 0 <= i < less.len() implies !(#[trigger] less[i]).contains(c) by {
            assert(less[i] == parts[i]);
        }
        lemma_joined_lacks(less, sep, c);
        lemma_sum_lacks(text::joined(less, sep), sep, c);
        assert(!parts[parts.len() - 1].contains(c));
        lemma_sum_lacks(text::joined(less, sep) + sep, parts.last(), c);
    }
}

proof fn lemma_literals_lack()
    ensures
        !"Int"@.contains('?'),
        !"Float"@.contains('?'),
        !"Bool"@.contains('?'),
        !"String"@.contains('?'),
        !"Unit"@.contains('?'),
        !"{ "@.contains('?'),
        !" }"@.contains('?'),
        !", "@.contains('?'),
        !": "@.contains('?'),
        !"Result<"@.contains('?'),
        !">"@.contains('?'),
{
    reveal_strlit("Int");
    reveal_strlit("Float");
    reveal_strlit("Bool");
    reveal_strlit("String");
    reveal_strlit("Unit");
    reveal_strlit("{ ");
    reveal_strlit(" }");
    reveal_strlit(", ");
    reveal_strlit(": ");
    reveal_strlit("Result<");
    reveal_strlit(">");
}

/// A type in which nothing is unknown is printed without the mark of the
/// unknown.
pub proof fn law_known_types_are_written_out(t: TypeModel)
    requires
        types::known(t),
        unmarked(t),
    ensures
        !types::shown(t).contains('?'),
    decreases t,
{
    lemma_literals_lack();
    match t {
        TypeModel::Record(fields) => {
            lemma_known_fields(fields);
            let inner = text::joined(types::shown_fields(fields), ", "@);
            lemma_joined_lacks(types::shown_fields(fields), ", "@, '?');
            lemma_sum_lacks("{ "@, inner, '?');
            lemma_sum_lacks("{ "@ + inner, " }"@, '?');
        },
        TypeModel::Result(a, b) => {
            law_known_types_are_written_out(*a);
            law_known_types_are_written_out(*b);
            let x = types::shown(*a);
            let y = types::shown(*b);
            lemma_sum_lacks("Result<"@, x, '?');
            lemma_sum_lacks("Result<"@ + x, ", "@, '?');
            lemma_sum_lacks("Result<"@ + x + ", "@, y, '?');
            lemma_sum_lacks("Result<"@ + x + ", "@ + y, ">"@, '?');
        },
        _ => {},
    }
}

proof fn lemma_known_fields(fields: Fields)
    requires
        types::known_fields(fields),
        unmarked_fields(fields),
    ensures
        forall|i: int|
            0 <= i < types::shown_fields(fields).len() ==> !(#[trigger] types::shown_fields(
                fields,
            )[i]).contains('?'),
    decreases fields,
{
    lemma_literals_lack();
    if fields.len() > 0 {
        let less = fields.drop_last();
        let last = fields.last();
        lemma_known_fields(less);
        law_known_types_are_written_out(last.1);
        lemma_sum_lacks(last.0, ": "@, '?');
        lemma_sum_lacks(last.0 + ": "@, types::shown(last.1), '?');
        let before = types::shown_fields(less);
        let all = types::shown_fields(fields);
        assert forall|i: int| 0 <= i < all.len() implies !(#[trigger] all[i]).contains('?') by {
            if i < before.len() {
                assert(all[i] == before[i]);
            }
        }
    }
}

// ----- types that can be written -----

proof fn lemma_filled_is(t: TypeModel)
    requires
        types::known(t),
    ensures
        types::filled(t) == t,
    decreases t,
{
    match t {
        TypeModel::Record(fields) => lemma_filled_fields_are(fields),
        TypeModel::Result(a, b) => {
            lemma_filled_is(*a);
            lemma_filled_is(*b);
        },
        _ => {},
    }
}

proof fn lemma_filled_fields_are(fields: Fields)
    requires
        types::known_fields(fields),
    ensures
        types::filled_fields(fields) == fields,
    decreases fields,
{
    if fields.len() > 0 {
        lemma_filled_fields_are(fields.drop_last());
        lemma_filled_is(fields.last().1);
        assert(types::filled_fields(fields) =~= fields);
    } else {
        assert(types::filled_fields(fields) =~= fields);
    }
}

/// A type that can be written is fitted as it is, whatever the hint.
pub proof fn law_known_type_is_kept(t: TypeModel, hint: TypeModel)
    requires
        types::known(t),
    ensures
        types::fitted(t, hint) == t,
    decreases t,
{
    match (t, hint) {
        (TypeModel::Result(a, b), TypeModel::Result(c, d)) => {
            law_known_type_is_kept(*a, *c);
            law_known_type_is_kept(*b, *d);
        },
        _ => lemma_filled_is(t),
    }
}

/// What is not known is taken from a hint that is, also on either side of a
/// result.
pub proof fn law_hint_fills_what_is_unknown(a: TypeModel, b: TypeModel, hint: TypeModel)
    requires
        types::known(hint),
    ensures
        types::fitted(TypeModel::Unknown, hint) == hint,
        hint matches TypeModel::Result(c, d) ==> {
            &&& types::fitted(
                TypeModel::Result(Box::new(a), Box::new(TypeModel::Unknown)),
                hint,
            ) == TypeModel::Result(Box::new(types::fitted(a, *c)), d)
            &&& types::fitted(
                TypeModel::Result(Box::new(TypeModel::Unknown), Box::new(b)),
                hint,
            ) == TypeModel::Result(c, Box::new(types::fitted(b, *d)))
        },
{
    lemma_filled_is(hint);
    if let TypeModel::Result(c, d) = hint {
        lemma_filled_is(*c);
        lemma_filled_is(*d);
        assert(types::fitted(TypeModel::Unknown, *c) == *c);
        assert(types::fitted(TypeModel::Unknown, *d) == *d);
    }
}

// ----- which types go together -----

/// A type without parts.
pub open spec fn is_scalar(t: TypeModel) -> bool {
    t is Int || t is Float || t is Bool || t is Str || t is Unit
}

/// A scalar goes with itself and with nothing else that is known: with no other
/// scalar, no result, no record and no name.
pub proof fn law_scalars_go_with_themselves(a: TypeModel, b: TypeModel, reg: Records, depth: nat)
    requires
        depth > 0,
        is_scalar(a),
        !(b is Unknown),
        !(b is Named),
    ensures
        types::compare(a, b, reg, depth) == Some(a == b),
        types::compare(b, a, reg, depth) == Some(a == b),
{
}

/// A record goes with no result.
pub proof fn law_records_are_no_results(a: TypeModel, b: TypeModel, reg: Records, depth: nat)
    requires
        depth > 0,
        a is Record,
        b is Result,
    ensures
        types::compare(a, b, reg, depth) == Some(false),
        types::compare(b, a, reg, depth) == Some(false),
{
}

/// A name faces any other type as the record that is declared under it; where
/// none is, it goes with nothing but itself and what is unknown.
pub proof fn law_names_stand_for_their_records(
    x: Seq<char>,
    b: TypeModel,
    reg: Records,
    depth: nat,
)
    requires
        depth > 1,
        !(b is Unknown),
        !(b is Named),
    ensures
        !reg.dom().contains(x) ==> types::compare(TypeModel::Named(x), b, reg, depth) == Some(false)
            && types::compare(b, TypeModel::Named(x), reg, depth) == Some(false),
        reg.dom().contains(x) && !(b is Record) ==> types::compare(
            TypeModel::Named(x),
            b,
            reg,
            depth,
        ) == Some(false) && types::compare(b, TypeModel::Named(x), reg, depth) == Some(false),
        reg.dom().contains(x) && b is Record ==> {
            let below = (depth - 1) as nat;
            &&& types::compare(TypeModel::Named(x), b, reg, depth) == types::compare(
                TypeModel::Record(reg[x]),
                b,
                reg,
                below,
            )
            &&& types::compare(b, TypeModel::Named(x), reg, depth) == types::compare(
                TypeModel::Record(reg[x]),
                b,
                reg,
                below,
            )
        },
{
}

/// Two results go together iff both their sides do; the second sides are not
/// looked at where the first do not.
pub proof fn law_results_go_side_by_side(
    a: TypeModel,
    b: TypeModel,
    reg: Records,
    depth: nat,
)
    requires
        depth > 0,
        a is Result,
        b is Result,
    ensures
        ({
            let below = (depth - 1) as nat;
            let first = types::compare(*a->Result_0, *b->Result_0, reg, below);
            let second = types::compare(*a->Result_1, *b->Result_1, reg, below);
            let got = types::compare(a, b, reg, depth);
            &&& got == Some(true) <==> first == Some(true) && second == Some(true)
            &&& got == Some(false) <==> first == Some(false) || (first == Some(true) && second
                == Some(false))
        }),
{
}

proof fn lemma_any_true(
    f: (Seq<char>, TypeModel),
    fb: Fields,
    from: nat,
    reg: Records,
    n: nat,
) -> (j: int)
    requires
        types::compare_any(f, fb, from, reg, n) == Some(true),
    ensures
        from <= j < fb.len(),
        fb[j].0 == f.0,
        types::compare(f.1, fb[j].1, reg, n) == Some(true),
    decreases fb.len() - from,
{
    if f.0 == fb[from as int].0 && types::compare(f.1, fb[from as int].1, reg, n) == Some(true) {
        from as int
    } else {
        lemma_any_true(f, fb, from + 1, reg, n)
    }
}

proof fn lemma_any_false(
    f: (Seq<char>, TypeModel),
    fb: Fields,
    from: nat,
    reg: Records,
    n: nat,
    j: int,
)
    requires
        types::compare_any(f, fb, from, reg, n) == Some(false),
        from <= j < fb.len(),
        fb[j].0 == f.0,
    ensures
        types::compare(f.1, fb[j].1, reg, n) == Some(false),
    decreases fb.len() - from,
{
    if j > from {
        lemma_any_false(f, fb, from + 1, reg, n, j);
    }
}

/// A field has a counterpart in a record: one of the same name that it goes with.
pub open spec fn has_counterpart(
    f: (Seq<char>, TypeModel),
    fb: Fields,
    reg: Records,
    depth: nat,
) -> bool {
    exists|j: int|
        0 <= j < fb.len() && (#[trigger] fb[j]).0 == f.0 && types::compare(
            f.1,
            fb[j].1,
            reg,
            depth,
        ) == Some(true)
}

/// No field of a record is a counterpart: those of the same name clash.
pub open spec fn has_none(
    f: (Seq<char>, TypeModel),
    fb: Fields,
    reg: Records,
    depth: nat,
) -> bool {
    forall|j: int|
        0 <= j < fb.len() && (#[trigger] fb[j]).0 == f.0 ==> types::compare(
            f.1,
            fb[j].1,
            reg,
            depth,
        ) == Some(false)
}

/// Two records that go together have as many fields, and every field of the first
/// has its counterpart in the second, in whatever order. Where they do not, the
/// numbers differ or some field has none.
pub proof fn law_records_go_field_by_field(fa: Fields, fb: Fields, reg: Records, depth: nat)
    requires
        depth > 0,
    ensures
        ({
            let below = (depth - 1) as nat;
            let got = types::compare(TypeModel::Record(fa), TypeModel::Record(fb), reg, depth);
            &&& got == Some(true) ==> fa.len() == fb.len() && forall|i: int|
                0 <= i < fa.len() ==> has_counterpart(#[trigger] fa[i], fb, reg, below)
            &&& got == Some(false) ==> fa.len() != fb.len() || exists|i: int|
                0 <= i < fa.len() && has_none(#[trigger] fa[i], fb, reg, below)
            &&& fa.len() != fb.len() ==> got == Some(false)
        }),
{
    let below = (depth - 1) as nat;
    let got = types::compare(TypeModel::Record(fa), TypeModel::Record(fb), reg, depth);
    if got == Some(true) {
        assert forall|i: int| 0 <= i < fa.len() implies has_counterpart(
            #[trigger] fa[i],
            fb,
            reg,
            below,
        ) by {
            lemma_all_true(fa, 0, fb, reg, below, i);
            let j = lemma_any_true(fa[i], fb, 0, reg, below);
            assert(fb[j].0 == fa[i].0);
        }
    }
    if got == Some(false) && fa.len() == fb.len() {
        let i = lemma_all_false(fa, 0, fb, reg, below);
        assert forall|j: int| 0 <= j < fb.len() && (#[trigger] fb[j]).0 == fa[i].0 implies types::compare(
            fa[i].1,
            fb[j].1,
            reg,
            below,
        ) == Some(false) by {
            lemma_any_false(fa[i], fb, 0, reg, below, j);
        }
        assert(has_none(fa[i], fb, reg, below));
    }
}

// ----- how types are written -----

/// A type that is written as a name without arguments is shown as it is written,
/// whatever the name; `Result` alone says that nothing is known of its sides.
pub proof fn law_names_are_shown_as_written(t: TypeExpr)
    requires
        t matches TypeExpr::Name { args, .. } && args@.len() == 0,
    ensures
        t matches TypeExpr::Name { name, .. } && (name@ != "Result"@ ==> types::shown(
            types::resolved(t),
        ) == name@ && types::known(types::resolved(t))),
        t matches TypeExpr::Name { name, .. } && (name@ == "Result"@ ==> types::resolved(t)
            == TypeModel::Result(Box::new(TypeModel::Unknown), Box::new(TypeModel::Unknown))),
{
    lemma_scalar_names();
}

proof fn lemma_scalar_names()
    ensures
        "Result"@ != "Int"@,
        "Result"@ != "Float"@,
        "Result"@ != "Bool"@,
        "Result"@ != "String"@,
        "Result"@ != "Unit"@,
        "Int"@ != "Float"@,
        "Int"@ != "Bool"@,
        "Int"@ != "String"@,
        "Int"@ != "Unit"@,
        "Float"@ != "Bool"@,
        "Float"@ != "String"@,
        "Float"@ != "Unit"@,
        "Bool"@ != "String"@,
        "Bool"@ != "Unit"@,
        "String"@ != "Unit"@,
{
    reveal_strlit("Int");
    reveal_strlit("Float");
    reveal_strlit("Bool");
    reveal_strlit("String");
    reveal_strlit("Unit");
    reveal_strlit("Result");
    assert("Int"@.len() == 3 && "Float"@.len() == 5);
    assert("Bool"@.len() == 4 && "Unit"@.len() == 4);
    assert("Bool"@[0] == 'B' && "Unit"@[0] == 'U');
    assert("String"@.len() == 6 && "Result"@.len() == 6);
    assert("String"@[0] == 'S' && "Result"@[0] == 'R');
}

/// The names of scalars stand for the scalars, and a name that is none of them
/// and not `Result` stands for itself.
pub proof fn law_scalar_names_stand_for_scalars(t: TypeExpr)
    ensures
        t matches TypeExpr::Name { name, .. } ==> {
            let got = types::resolved(t);
            &&& name@ == "Int"@ <==> got == TypeModel::Int
            &&& name@ == "Float"@ <==> got == TypeModel::Float
            &&& name@ == "Bool"@ <==> got == TypeModel::Bool
            &&& name@ == "String"@ <==> got == TypeModel::Str
            &&& name@ == "Unit"@ <==> got == TypeModel::Unit
            &&& name@ == "Result"@ <==> got is Result
            &&& got is Named ==> got == TypeModel::Named(name@)
            &&& !(got is Unknown) && !(got is Record)
        },
{
    lemma_scalar_names();
}

/// A result that is written with both sides is the result of what they denote;
/// a side that is not written is unknown.
pub proof fn law_results_have_two_sides(t: TypeExpr)
    requires
        t matches TypeExpr::Name { name, .. } && name@ == "Result"@,
    ensures
        t matches TypeExpr::Name { args, .. } && (types::resolved(t) matches TypeModel::Result(
            a,
            b,
        ) && {
            &&& args@.len() >= 1 ==> *a == types::resolved(args@[0])
            &&& args@.len() >= 2 ==> *b == types::resolved(args@[1])
            &&& args@.len() < 1 ==> *a == TypeModel::Unknown
            &&& args@.len() < 2 ==> *b == TypeModel::Unknown
        }),
{
    lemma_scalar_names();
}

/// A record that is written out has the fields that are written, in order.
pub proof fn law_written_records_keep_their_fields(t: TypeExpr)
    requires
        t is Record,
    ensures
        t matches TypeExpr::Record { fields, .. } && (types::resolved(t) matches TypeModel::Record(
            got,
        ) && got.len() == fields@.len() && forall|i: int|
            0 <= i < got.len() ==> #[trigger] got[i] == (
                fields@[i].0@,
                types::resolved(fields@[i].1),
            )),
{
    if let TypeExpr::Record { fields, .. } = t {
        crate::program::laws::lemma_resolved_fields(fields@);
    }
}

proof fn lemma_shown_fields(fields: Fields)
    ensures
        types::shown_fields(fields).len() == fields.len(),
        forall|i: int|
            0 <= i < fields.len() ==> #[trigger] types::shown_fields(fields)[i] == fields[i].0
                + ": "@ + types::shown(fields[i].1),
    decreases fields.len(),
{
    if fields.len() > 0 {
        lemma_shown_fields(fields.drop_last());
    }
}

/// A result is shown with both its sides, a record with all its fields in order,
/// and what is unknown as a question mark.
pub proof fn law_parts_are_shown(a: TypeModel, b: TypeModel, fields: Fields) -> (parts: Seq<Seq<char>>)
    ensures
        types::shown(TypeModel::Result(Box::new(a), Box::new(b))) == "Result<"@ + types::shown(a)
            + ", "@ + types::shown(b) + ">"@,
        types::shown(TypeModel::Unknown) == "?"@,
        types::shown(TypeModel::Record(fields)) == "{ "@ + text::joined(parts, ", "@) + " }"@,
        parts.len() == fields.len(),
        forall|i: int|
            0 <= i < fields.len() ==> #[trigger] parts[i] == fields[i].0 + ": "@ + types::shown(
                fields[i].1,
            ),
{
    lemma_shown_fields(fields);
    types::shown_fields(fields)
}

/// Filling puts `Unit` in place of what is unknown, in every part, and leaves all
/// else as it is.
pub proof fn law_filling_replaces_the_unknown(t: TypeModel, fields: Fields, i: int)
    ensures
        types::filled(TypeModel::Unknown) == TypeModel::Unit,
        types::known(t) ==> types::filled(t) == t,
        types::known(types::filled(t)),
        t matches TypeModel::Result(a, b) ==> types::filled(t) == TypeModel::Result(
            Box::new(types::filled(*a)),
            Box::new(types::filled(*b)),
        ),
        types::filled(TypeModel::Record(fields)) matches TypeModel::Record(got) && got.len()
            == fields.len() && (0 <= i < fields.len() ==> got[i] == (
            fields[i].0,
            types::filled(fields[i].1),
        )),
{
    if types::known(t) {
        lemma_filled_is(t);
    }
    types::law_fitted_can_be_written(TypeModel::Unknown, t);
    assert(types::fitted(TypeModel::Unknown, t) == types::filled(t));
    types::lemma_filled_fields(fields);
}

/// Types are compatible iff their comparison, as deep as a machine can count,
/// comes to an end and says so.
pub proof fn law_compatible_is_the_outcome(a: TypeModel, b: TypeModel, reg: Records)
    ensures
        types::comparable(a, b, reg) <==> types::compare(a, b, reg, u64::MAX as nat) is Some,
        types::goes_with(a, b, reg) <==> types::compare(a, b, reg, u64::MAX as nat) == Some(true),
{
}

/// A comparison that may not look at all tells nothing.
pub proof fn law_no_depth_no_outcome(a: TypeModel, b: TypeModel, reg: Records)
    ensures
        types::compare(a, b, reg, 0) is None,
{
}

} // verus!
