//! Scope stacks as plain values: each binding is its name, type, place of
//! declaration and whether it was read.  The operations of the symbol
//! table on its scopes (bind, look up, mark as used) are stated here over
//! these values, and lemmas tie them to the table's own specifications.

use vstd::prelude::*;
use crate::tokens::Span;
use super::symbol_table::{VarInfo, find_name, var_names, spec_lookup, spec_mark_used};
use super::types::TypeV;

verus! {

/// A binding: name, type, place of declaration, and whether it was read.
pub type VarV = (Seq<char>, TypeV, Span, bool);

/// A stack of scopes, outermost first.
pub type VStack = Seq<Seq<VarV>>;

pub open spec fn var_v(v: VarInfo) -> VarV {
    (v.name@, v.hulk_type@, v.span, v.used)
}

pub open spec fn vscope(sc: Seq<VarInfo>) -> Seq<VarV> {
    sc.map_values(|v: VarInfo| var_v(v))
}

pub open spec fn vstack(st: Seq<Seq<VarInfo>>) -> VStack {
    st.map_values(|sc: Seq<VarInfo>| vscope(sc))
}

/// The names bound in a scope, in order.
pub open spec fn vnames(sc: Seq<VarV>) -> Seq<Seq<char>> {
    sc.map_values(|v: VarV| v.0)
}

/// Whether some scope binds `name`.
pub open spec fn sc_bound(st: VStack, name: Seq<char>) -> bool
    decreases st.len(),
{
    if st.len() == 0 {
        false
    } else {
        find_name(vnames(st.last()), name, 0) is Some || sc_bound(st.drop_last(), name)
    }
}

/// The stack after marking the innermost binding of `name` as read.
pub open spec fn sc_mark(st: VStack, name: Seq<char>) -> VStack
    decreases st.len(),
{
    if st.len() == 0 {
        st
    } else {
        match find_name(vnames(st.last()), name, 0) {
            Some(i) => {
                let v = st.last()[i];
                st.update(st.len() - 1, st.last().update(i, (v.0, v.1, v.2, true)))
            },
            None => sc_mark(st.drop_last(), name).push(st.last()),
        }
    }
}

/// Whether `name` can be bound in the innermost scope (it is not bound
/// there yet).
pub open spec fn sc_fresh(st: VStack, name: Seq<char>) -> bool {
    find_name(vnames(st.last()), name, 0) is None
}

/// The stack after binding `name` (unread) in the innermost scope, unless
/// that scope already binds it.
pub open spec fn sc_define(st: VStack, name: Seq<char>, t: TypeV, span: Span) -> VStack {
    if sc_fresh(st, name) {
        st.update(st.len() - 1, st.last().push((name, t, span, false)))
    } else {
        st
    }
}

/// The stack after binding each of `ps` in the innermost scope, in order.
pub open spec fn sc_define_all(st: VStack, ps: Seq<(Seq<char>, TypeV)>, span: Span) -> VStack
    decreases ps.len(),
{
    if ps.len() == 0 {
        st
    } else {
        let p = ps.last();
        sc_define(sc_define_all(st, ps.drop_last(), span), p.0, p.1, span)
    }
}

pub proof fn lemma_names(sc: Seq<VarInfo>)
    ensures
        vnames(vscope(sc)) == var_names(sc),
{
    assert(vnames(vscope(sc)) =~= var_names(sc));
}

pub proof fn lemma_vstack_shape(st: Seq<Seq<VarInfo>>)
    ensures
        vstack(st).len() == st.len(),
        st.len() > 0 ==> vstack(st).last() == vscope(st.last()),
        st.len() > 0 ==> vstack(st).drop_last() == vstack(st.drop_last()),
        forall|sc: Seq<VarInfo>| #[trigger] vstack(st.push(sc)) == vstack(st).push(vscope(sc)),
{
    if st.len() > 0 {
        assert(vstack(st).drop_last() =~= vstack(st.drop_last()));
    }
    assert forall|sc: Seq<VarInfo>| #[trigger] vstack(st.push(sc)) == vstack(st).push(vscope(sc)) by {
        assert(vstack(st.push(sc)) =~= vstack(st).push(vscope(sc)));
    }
}

pub proof fn lemma_empty_scope()
    ensures
        vscope(Seq::<VarInfo>::empty()) == Seq::<VarV>::empty(),
{
    assert(vscope(Seq::<VarInfo>::empty()) =~= Seq::<VarV>::empty());
}

/// Looking a name up in the table finds it exactly when it is bound.
pub proof fn lemma_bound(st: Seq<Seq<VarInfo>>, name: Seq<char>)
    ensures
        sc_bound(vstack(st), name) == (spec_lookup(st, name) is Some),
    decreases st.len(),
{
    if st.len() > 0 {
        lemma_vstack_shape(st);
        lemma_names(st.last());
        lemma_bound(st.drop_last(), name);
    }
}

/// Marking a name as used in the table marks it in the model.
pub proof fn lemma_mark(st: Seq<Seq<VarInfo>>, name: Seq<char>)
    ensures
        vstack(spec_mark_used(st, name)) == sc_mark(vstack(st), name),
    decreases st.len(),
{
    if st.len() > 0 {
        lemma_vstack_shape(st);
        lemma_names(st.last());
        match find_name(var_names(st.last()), name, 0) {
            Some(i) => {
                super::symbol_table::lemma_find_name(var_names(st.last()), name, 0);
                let v = st.last()[i];
                let r = spec_mark_used(st, name);
                assert(r == st.update(st.len() - 1, st.last().update(i, VarInfo { used: true, ..v })));
                assert(vscope(st.last().update(i, VarInfo { used: true, ..v })) =~= vscope(st.last()).update(
                    i,
                    (v.name@, v.hulk_type@, v.span, true),
                ));
                assert(vstack(r) =~= sc_mark(vstack(st), name));
            },
            None => {
                lemma_mark(st.drop_last(), name);
                let inner = spec_mark_used(st.drop_last(), name);
                lemma_vstack_shape(inner);
                assert(vstack(inner.push(st.last())) == vstack(inner).push(vscope(st.last())));
            },
        }
    }
}

/// What `define_var` promises of the table, stated over the model.
pub proof fn lemma_define(
    before: Seq<Seq<VarInfo>>,
    after: Seq<Seq<VarInfo>>,
    fresh: bool,
    name: Seq<char>,
    t: TypeV,
    span: Span,
)
    requires
        before.len() >= 1,
        fresh == find_name(var_names(before.last()), name, 0) is None,
        !fresh ==> after == before,
        fresh ==> after.len() == before.len(),
        fresh ==> after.drop_last() == before.drop_last(),
        fresh ==> after.last().drop_last() == before.last(),
        fresh ==> after.last() == before.last().push(after.last().last()),
        fresh ==> after.last().last().name@ == name,
        fresh ==> after.last().last().hulk_type@ == t,
        fresh ==> after.last().last().span == span,
        fresh ==> !after.last().last().used,
    ensures
        fresh == sc_fresh(vstack(before), name),
        vstack(after) == sc_define(vstack(before), name, t, span),
{
    lemma_vstack_shape(before);
    lemma_names(before.last());
    if fresh {
        lemma_vstack_shape(after);
        let vb = vstack(before);
        let va = vstack(after);
        assert(vscope(after.last()) =~= vscope(before.last()).push((name, t, span, false)));
        assert(va =~= vb.update(vb.len() - 1, vb.last().push((name, t, span, false)))) by {
            assert forall|k: int| 0 <= k < va.len() - 1 implies va[k] == vb[k] by {
                assert(after[k] == after.drop_last()[k]);
                assert(before[k] == before.drop_last()[k]);
            }
        }
    }
}

} // verus!
