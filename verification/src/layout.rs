//! The layout of objects at run time: the order in which classes are laid
//! out, the fields of an object (those of its ancestors first) and the
//! slots of a class's table of methods (an inherited method keeps its
//! slot, an override takes it over).

use vstd::prelude::*;
use crate::ast::{ClassDecl, Method};
use crate::text::str_eq;
use crate::semantic::symbol_table::{
    AttrInfo, ClassInfo, SymbolTable, find_class, spec_ancestors, walk, string_views, contains_string,
};
use crate::semantic::types::{HulkType, TypeV};

verus! {

/// A table of methods as plain values: each slot holds a method's name and
/// the class whose body it runs.
pub open spec fn slots_view(s: Seq<(String, String)>) -> Seq<(Seq<char>, Seq<char>)> {
    s.map_values(|x: (String, String)| (x.0@, x.1@))
}

/// The names of a list of methods.
pub open spec fn method_names(ms: Seq<Method>) -> Seq<Seq<char>> {
    ms.map_values(|m: Method| m.name@)
}

/// The first slot from `i` on that holds the method `name`.
pub open spec fn first_slot(layout: Seq<(Seq<char>, Seq<char>)>, name: Seq<char>, i: int) -> Option<int>
    decreases layout.len() - i,
{
    if i < 0 || i >= layout.len() {
        None
    } else if layout[i].0 == name {
        Some(i)
    } else {
        first_slot(layout, name, i + 1)
    }
}

/// The table of methods of class `cname`: the table it inherits, in which
/// each of its own methods `names`, in order, takes over the slot of the
/// method of that name, or gets a new slot at the end.
pub open spec fn spec_vtable(inherited: Seq<(Seq<char>, Seq<char>)>, cname: Seq<char>, names: Seq<Seq<char>>) -> Seq<(Seq<char>, Seq<char>)>
    decreases names.len(),
{
    if names.len() == 0 {
        inherited
    } else {
        let prev = spec_vtable(inherited, cname, names.drop_last());
        match first_slot(prev, names.last(), 0) {
            Some(i) => prev.update(i, (prev[i].0, cname)),
            None => prev.push((names.last(), cname)),
        }
    }
}

proof fn lemma_first_slot(layout: Seq<(Seq<char>, Seq<char>)>, name: Seq<char>, i: int)
    requires
        0 <= i,
    ensures
        first_slot(layout, name, i) matches Some(j) ==> i <= j < layout.len() && layout[j].0 == name && forall|k: int|
            i <= k < j ==> layout[k].0 != name,
        first_slot(layout, name, i) is None ==> forall|k: int| i <= k < layout.len() ==> layout[k].0 != name,
    decreases layout.len() - i,
{
    if i < layout.len() && layout[i].0 != name {
        lemma_first_slot(layout, name, i + 1);
    }
}

/// No two slots of a table hold methods of the same name.
pub open spec fn distinct_slots(l: Seq<(Seq<char>, Seq<char>)>) -> bool {
    forall|i: int, j: int| 0 <= i < j < l.len() ==> l[i].0 != l[j].0
}

/// A class's table of methods keeps every slot it inherits: the same
/// method in the same place, run either by the class that ran it before
/// or by the class itself.
pub proof fn law_vtable_keeps_inherited_slots(inherited: Seq<(Seq<char>, Seq<char>)>, cname: Seq<char>, names: Seq<Seq<char>>)
    ensures
        spec_vtable(inherited, cname, names).len() >= inherited.len(),
        forall|i: int|
            0 <= i < inherited.len() ==> (#[trigger] spec_vtable(inherited, cname, names)[i]).0 == inherited[i].0 && (
            spec_vtable(inherited, cname, names)[i].1 == inherited[i].1 || spec_vtable(inherited, cname, names)[i].1
                == cname),
    decreases names.len(),
{
    if names.len() > 0 {
        law_vtable_keeps_inherited_slots(inherited, cname, names.drop_last());
        let prev = spec_vtable(inherited, cname, names.drop_last());
        lemma_first_slot(prev, names.last(), 0);
    }
}

/// Each of the class's own methods has a slot in its table, run by the
/// class itself.
pub proof fn law_vtable_has_own_methods(inherited: Seq<(Seq<char>, Seq<char>)>, cname: Seq<char>, names: Seq<Seq<char>>)
    ensures
        forall|j: int|
            0 <= j < names.len() ==> exists|i: int|
                0 <= i < spec_vtable(inherited, cname, names).len() && #[trigger] spec_vtable(inherited, cname, names)[i]
                    == (#[trigger] names[j], cname),
    decreases names.len(),
{
    if names.len() > 0 {
        let init = names.drop_last();
        law_vtable_has_own_methods(inherited, cname, init);
        let prev = spec_vtable(inherited, cname, init);
        let cur = spec_vtable(inherited, cname, names);
        lemma_first_slot(prev, names.last(), 0);
        assert forall|j: int| 0 <= j < names.len() implies exists|i: int|
            0 <= i < cur.len() && #[trigger] cur[i] == (#[trigger] names[j], cname) by {
            if j == names.len() - 1 {
                match first_slot(prev, names.last(), 0) {
                    Some(i) => {
                        assert(cur[i] == (names[j], cname));
                    },
                    None => {
                        assert(cur[prev.len() as int] == (names[j], cname));
                    },
                }
            } else {
                assert(init[j] == names[j]);
                let i = choose|i: int| 0 <= i < prev.len() && #[trigger] prev[i] == (init[j], cname);
                match first_slot(prev, names.last(), 0) {
                    Some(k) => {
                        assert(cur[i] == (names[j], cname));
                    },
                    None => {
                        assert(cur[i] == (names[j], cname));
                    },
                }
            }
        }
    }
}

/// A table whose inherited slots hold distinct methods keeps them distinct.
pub proof fn law_vtable_distinct(inherited: Seq<(Seq<char>, Seq<char>)>, cname: Seq<char>, names: Seq<Seq<char>>)
    requires
        distinct_slots(inherited),
    ensures
        distinct_slots(spec_vtable(inherited, cname, names)),
    decreases names.len(),
{
    if names.len() > 0 {
        law_vtable_distinct(inherited, cname, names.drop_last());
        let prev = spec_vtable(inherited, cname, names.drop_last());
        lemma_first_slot(prev, names.last(), 0);
    }
}

/// With distinct inherited slots, an inherited method that the class
/// overrides keeps its slot, which now runs the class's body.
pub proof fn law_vtable_override_in_place(inherited: Seq<(Seq<char>, Seq<char>)>, cname: Seq<char>, names: Seq<Seq<char>>)
    requires
        distinct_slots(inherited),
    ensures
        forall|i: int|
            0 <= i < inherited.len() && names.contains(inherited[i].0) ==> #[trigger] spec_vtable(inherited, cname, names)[i]
                == (inherited[i].0, cname),
{
    let v = spec_vtable(inherited, cname, names);
    law_vtable_keeps_inherited_slots(inherited, cname, names);
    law_vtable_has_own_methods(inherited, cname, names);
    law_vtable_distinct(inherited, cname, names);
    assert forall|i: int| 0 <= i < inherited.len() && names.contains(inherited[i].0) implies #[trigger] v[i] == (
        inherited[i].0,
        cname,
    ) by {
        let j = choose|j: int| 0 <= j < names.len() && names[j] == inherited[i].0;
        let k = choose|k: int| 0 <= k < v.len() && #[trigger] v[k] == (names[j], cname);
        assert(v[i].0 == inherited[i].0);
        if k != i {
            if k < i {
                assert(v[k].0 != v[i].0);
            } else {
                assert(v[i].0 != v[k].0);
            }
        }
    }
}

/// Builds the table of methods of class `class_name` from the table it
/// inherits and its own methods.
pub fn vtable_layout(inherited: &Vec<(String, String)>, class_name: &str, methods: &Vec<Method>) -> (r: Vec<
    (String, String),
>)
    ensures
        slots_view(r@) == spec_vtable(slots_view(inherited@), class_name@, method_names(methods@)),
{
    let mut layout: Vec<(String, String)> = Vec::new();
    let mut k: usize = 0;
    while k < inherited.len()
        invariant
            k <= inherited.len(),
            layout@ == inherited@.subrange(0, k as int),
        decreases inherited.len() - k,
    {
        let e = &inherited[k];
        let a = e.0.clone();
        let b = e.1.clone();
        assert((a, b) == inherited@[k as int]);
        layout.push((a, b));
        assert(layout@ =~= inherited@.subrange(0, k + 1));
        k = k + 1;
    }
    assert(inherited@.subrange(0, inherited@.len() as int) =~= inherited@);
    let ghost inh = slots_view(inherited@);
    let mut m: usize = 0;
    while m < methods.len()
        invariant
            m <= methods.len(),
            inh == slots_view(inherited@),
            slots_view(layout@) == spec_vtable(inh, class_name@, method_names(methods@).subrange(0, m as int)),
        decreases methods.len() - m,
    {
        let name = &methods[m].name;
        let ghost prev = slots_view(layout@);
        let mut i: usize = 0;
        while i < layout.len() && !str_eq(layout[i].0.as_str(), name.as_str())
            invariant
                i <= layout.len(),
                prev == slots_view(layout@),
                forall|j: int| 0 <= j < i ==> prev[j].0 != name@,
            decreases layout.len() - i,
        {
            i = i + 1;
        }
        proof {
            lemma_first_slot(prev, name@, 0);
            let names = method_names(methods@).subrange(0, m + 1);
            assert(names.drop_last() =~= method_names(methods@).subrange(0, m as int));
            assert(names.last() == name@);
        }
        if i < layout.len() {
            let owner = class_name.to_string();
            let slot_name = layout[i].0.clone();
            layout.set(i, (slot_name, owner));
            assert(slots_view(layout@) =~= prev.update(i as int, (prev[i as int].0, class_name@)));
        } else {
            layout.push((name.clone(), class_name.to_string()));
            assert(slots_view(layout@) =~= prev.push((name@, class_name@)));
        }
        m = m + 1;
    }
    assert(method_names(methods@).subrange(0, methods@.len() as int) =~= method_names(methods@));
    layout
}

// ── Fields of an object ──

/// Fields as plain values: each field's name and type.
pub open spec fn fields_view(f: Seq<(String, HulkType)>) -> Seq<(Seq<char>, TypeV)> {
    f.map_values(|x: (String, HulkType)| (x.0@, x.1@))
}

/// The attributes of a class as fields.
pub open spec fn attrs_view(a: Seq<AttrInfo>) -> Seq<(Seq<char>, TypeV)> {
    a.map_values(|x: AttrInfo| (x.name@, x.hulk_type@))
}

/// The fields contributed by the classes `names`, in order: the
/// attributes of each declared one.
pub open spec fn fields_of(classes: Seq<ClassInfo>, names: Seq<Seq<char>>) -> Seq<(Seq<char>, TypeV)>
    decreases names.len(),
{
    if names.len() == 0 {
        Seq::empty()
    } else {
        fields_of(classes, names.drop_last()) + match find_class(classes, names.last()) {
            Some(c) => attrs_view(c.attributes@),
            None => Seq::empty(),
        }
    }
}

/// The fields of an object of class `name`, after the slots of its table
/// of methods and of its type: the attributes of its ancestors, the root
/// first, and its own last; none for an undeclared class.
pub open spec fn spec_object_fields(classes: Seq<ClassInfo>, name: Seq<char>) -> Seq<(Seq<char>, TypeV)> {
    match find_class(classes, name) {
        Some(_) => fields_of(classes, spec_ancestors(classes, name).reverse()),
        None => Seq::empty(),
    }
}

/// The fields of an object of class `class_name`.
pub fn object_fields(symbols: &SymbolTable, class_name: &str) -> (r: Vec<(String, HulkType)>)
    ensures
        fields_view(r@) == spec_object_fields(symbols.classes@, class_name@),
{
    let mut out: Vec<(String, HulkType)> = Vec::new();
    if symbols.get_class(class_name).is_none() {
        assert(fields_view(out@) =~= Seq::<(Seq<char>, TypeV)>::empty());
        return out;
    }
    let chain = symbols.ancestors(class_name);
    let ghost rev = string_views(chain@).reverse();
    let mut i: usize = chain.len();
    assert(fields_view(out@) =~= fields_of(symbols.classes@, rev.subrange(0, 0)));
    while i > 0
        invariant
            i <= chain.len(),
            rev == string_views(chain@).reverse(),
            fields_view(out@) == fields_of(symbols.classes@, rev.subrange(0, chain.len() - i)),
        decreases i,
    {
        i = i - 1;
        let ghost done = rev.subrange(0, chain.len() - i);
        proof {
            assert(done.drop_last() =~= rev.subrange(0, chain.len() - i - 1));
            assert(done.last() == chain@[i as int]@);
        }
        let ghost before = fields_view(out@);
        match symbols.get_class(chain[i].as_str()) {
            Some(info) => {
                let mut a: usize = 0;
                while a < info.attributes.len()
                    invariant
                        a <= info.attributes.len(),
                        fields_view(out@) == before + attrs_view(info.attributes@).subrange(0, a as int),
                    decreases info.attributes.len() - a,
                {
                    let attr = &info.attributes[a];
                    let n = attr.name.clone();
                    let t = attr.hulk_type.duplicate();
                    proof {
                        lemma_fields_push(out@, (n, t));
                        lemma_attrs_prefix(info.attributes@, a as int);
                    }
                    out.push((n, t));
                    a = a + 1;
                }
                assert(attrs_view(info.attributes@).subrange(0, info.attributes@.len() as int) =~= attrs_view(
                    info.attributes@,
                ));
            },
            None => {
                assert(before + Seq::<(Seq<char>, TypeV)>::empty() =~= before);
            },
        }
    }
    assert(rev.subrange(0, chain@.len() as int) =~= rev);
    out
}

proof fn lemma_fields_push(f: Seq<(String, HulkType)>, x: (String, HulkType))
    ensures
        fields_view(f.push(x)) == fields_view(f).push((x.0@, x.1@)),
{
    assert(fields_view(f.push(x)) =~= fields_view(f).push((x.0@, x.1@)));
}

proof fn lemma_attrs_prefix(a: Seq<AttrInfo>, k: int)
    requires
        0 <= k < a.len(),
    ensures
        attrs_view(a).subrange(0, k + 1) == attrs_view(a).subrange(0, k).push((a[k].name@, a[k].hulk_type@)),
{
    assert(attrs_view(a).subrange(0, k + 1) =~= attrs_view(a).subrange(0, k).push((a[k].name@, a[k].hulk_type@)));
}

// ── The ancestors of a class ──

/// How many of `classes` have a name outside `w`.
pub open spec fn unseen(classes: Seq<ClassInfo>, w: Seq<Seq<char>>) -> nat
    decreases classes.len(),
{
    if classes.len() == 0 {
        0
    } else {
        unseen(classes.drop_last(), w) + if w.contains(classes.last().name@) {
            0nat
        } else {
            1nat
        }
    }
}

proof fn lemma_unseen_push(classes: Seq<ClassInfo>, w: Seq<Seq<char>>, x: Seq<char>, k: int)
    requires
        0 <= k < classes.len(),
        classes[k].name@ == x,
        !w.contains(x),
    ensures
        unseen(classes, w.push(x)) < unseen(classes, w),
        unseen(classes, w) <= classes.len(),
    decreases classes.len(),
{
    let init = classes.drop_last();
    let y = classes.last().name@;
    lemma_unseen_push_le(init, w, x);
    assert(w.push(x)[w.len() as int] == x);
    if w.contains(y) {
        let j = choose|j: int| 0 <= j < w.len() && w[j] == y;
        assert(w.push(x)[j] == y);
    }
    if k < classes.len() - 1 {
        assert(init[k] == classes[k]);
        lemma_unseen_push(init, w, x, k);
    }
    lemma_unseen_bound(classes, w);
}

proof fn lemma_unseen_push_le(classes: Seq<ClassInfo>, w: Seq<Seq<char>>, x: Seq<char>)
    ensures
        unseen(classes, w.push(x)) <= unseen(classes, w),
    decreases classes.len(),
{
    if classes.len() > 0 {
        lemma_unseen_push_le(classes.drop_last(), w, x);
        if w.contains(classes.last().name@) {
            let j = choose|j: int| 0 <= j < w.len() && w[j] == classes.last().name@;
            assert(w.push(x)[j] == w[j]);
        }
    }
}

proof fn lemma_unseen_bound(classes: Seq<ClassInfo>, w: Seq<Seq<char>>)
    ensures
        unseen(classes, w) <= classes.len(),
    decreases classes.len(),
{
    if classes.len() > 0 {
        lemma_unseen_bound(classes.drop_last(), w);
    }
}

proof fn lemma_walk_keeps(classes: Seq<ClassInfo>, cur: Seq<char>, w: Seq<Seq<char>>, f: nat)
    ensures
        forall|x: Seq<char>| w.contains(x) ==> #[trigger] walk(classes, cur, w, f).contains(x),
        f > 0 ==> walk(classes, cur, w, f).contains(cur),
    decreases f,
{
    if f > 0 && !w.contains(cur) {
        let w2 = w.push(cur);
        assert(w2[w.len() as int] == cur);
        assert forall|x: Seq<char>| w.contains(x) implies w2.contains(x) by {
            let j = choose|j: int| 0 <= j < w.len() && w[j] == x;
            assert(w2[j] == x);
        }
        match find_class(classes, cur) {
            Some(c) => match c.parent {
                Some(p) => {
                    lemma_walk_keeps(classes, p@, w2, (f - 1) as nat);
                    assert(w2.contains(cur));
                    assert(walk(classes, p@, w2, (f - 1) as nat).contains(cur));
                },
                None => {},
            },
            None => {},
        }
    }
}

proof fn lemma_walk_prepend(classes: Seq<ClassInfo>, cur: Seq<char>, c: Seq<char>, w: Seq<Seq<char>>, f: nat)
    requires
        !walk(classes, cur, w, f).contains(c),
    ensures
        walk(classes, cur, seq![c] + w, f) == seq![c] + walk(classes, cur, w, f),
    decreases f,
{
    lemma_walk_keeps(classes, cur, w, f);
    if f > 0 {
        assert(cur != c);
        assert((seq![c] + w).contains(cur) == w.contains(cur)) by {
            if (seq![c] + w).contains(cur) {
                let j = choose|j: int| 0 <= j < (seq![c] + w).len() && (seq![c] + w)[j] == cur;
                assert(w[j - 1] == cur);
            }
            if w.contains(cur) {
                let j = choose|j: int| 0 <= j < w.len() && w[j] == cur;
                assert((seq![c] + w)[j + 1] == cur);
            }
        }
        if !w.contains(cur) {
            assert((seq![c] + w).push(cur) =~= seq![c] + w.push(cur));
            match find_class(classes, cur) {
                Some(ci) => match ci.parent {
                    Some(p) => {
                        lemma_walk_prepend(classes, p@, c, w.push(cur), (f - 1) as nat);
                    },
                    None => {},
                },
                None => {},
            }
        }
    }
}

proof fn lemma_walk_fuel(classes: Seq<ClassInfo>, cur: Seq<char>, w: Seq<Seq<char>>, f: nat)
    requires
        f >= unseen(classes, w) + 1,
    ensures
        walk(classes, cur, w, f) == walk(classes, cur, w, f + 1),
    decreases f,
{
    if !w.contains(cur) {
        match find_class(classes, cur) {
            Some(ci) => match ci.parent {
                Some(p) => {
                    crate::semantic::symbol_table::lemma_find_name(
                        crate::semantic::symbol_table::class_names(classes),
                        cur,
                        0,
                    );
                    let k = crate::semantic::symbol_table::find_name(
                        crate::semantic::symbol_table::class_names(classes),
                        cur,
                        0,
                    ).unwrap();
                    lemma_unseen_push(classes, w, cur, k);
                    lemma_walk_fuel(classes, p@, w.push(cur), (f - 1) as nat);
                },
                None => {},
            },
            None => {},
        }
    }
}

/// The ancestors of a class are the class itself followed by the
/// ancestors of its parent, when it is not among them (inheritance without
/// a cycle through it).
pub proof fn law_ancestors_of_child(classes: Seq<ClassInfo>, c: Seq<char>, p: Seq<char>)
    requires
        find_class(classes, c) matches Some(ci) && ci.parent matches Some(q) && q@ == p,
        !spec_ancestors(classes, p).contains(c),
    ensures
        spec_ancestors(classes, c) == seq![c] + spec_ancestors(classes, p),
{
    let n = classes.len();
    assert(Seq::<Seq<char>>::empty().push(c) =~= seq![c]);
    assert(spec_ancestors(classes, c) == walk(classes, p, seq![c], n as nat));
    crate::semantic::symbol_table::lemma_find_name(crate::semantic::symbol_table::class_names(classes), c, 0);
    let k = crate::semantic::symbol_table::find_name(crate::semantic::symbol_table::class_names(classes), c, 0).unwrap();
    lemma_unseen_push(classes, Seq::empty(), c, k);
    lemma_walk_fuel(classes, p, seq![c], n as nat);
    assert(seq![c] + Seq::<Seq<char>>::empty() =~= seq![c]);
    lemma_walk_prepend(classes, p, c, Seq::empty(), (n + 1) as nat);
}

/// An object of a class starts with the fields of an object of its parent:
/// the attributes it inherits come first, in the same places, and its own
/// follow (inheritance without a cycle through the class).
pub proof fn law_parent_fields_first(classes: Seq<ClassInfo>, c: Seq<char>, p: Seq<char>)
    requires
        find_class(classes, c) matches Some(ci) && ci.parent matches Some(q) && q@ == p,
        !spec_ancestors(classes, p).contains(c),
    ensures
        spec_object_fields(classes, c) == spec_object_fields(classes, p) + attrs_view(
            find_class(classes, c).unwrap().attributes@,
        ),
{
    law_ancestors_of_child(classes, c, p);
    let anc = spec_ancestors(classes, p);
    let names = (seq![c] + anc).reverse();
    assert(names.drop_last() =~= anc.reverse());
    assert(names.last() == c);
    if find_class(classes, p) is None {
        assert(anc == seq![p]) by {
            assert(spec_ancestors(classes, p) == walk(classes, p, Seq::empty(), (classes.len() + 1) as nat));
            assert(Seq::<Seq<char>>::empty().push(p) =~= seq![p]);
        }
        assert(anc.reverse() =~= seq![p]);
        assert(seq![p].drop_last() =~= Seq::<Seq<char>>::empty());
        assert(seq![p].last() == p);
        assert(fields_of(classes, Seq::<Seq<char>>::empty()) == Seq::<(Seq<char>, TypeV)>::empty());
        assert(fields_of(classes, seq![p]) =~= Seq::<(Seq<char>, TypeV)>::empty());
    }
}

// ── The order of classes ──

/// The last of `cs` named `name`: a later declaration of a name stands for
/// it.
pub open spec fn last_named(cs: Seq<ClassDecl>, name: Seq<char>) -> Option<int>
    decreases cs.len(),
{
    if cs.len() == 0 {
        None
    } else if cs.last().name@ == name {
        Some(cs.len() - 1)
    } else {
        last_named(cs.drop_last(), name)
    }
}

pub proof fn lemma_last_named(cs: Seq<ClassDecl>, name: Seq<char>)
    ensures
        last_named(cs, name) matches Some(i) ==> 0 <= i < cs.len() && cs[i].name@ == name,
    decreases cs.len(),
{
    if cs.len() > 0 && cs.last().name@ != name {
        lemma_last_named(cs.drop_last(), name);
    }
}

/// How many of `cs` have a name outside `w`.
pub open spec fn unvisited(cs: Seq<ClassDecl>, w: Seq<Seq<char>>) -> nat
    decreases cs.len(),
{
    if cs.len() == 0 {
        0
    } else {
        unvisited(cs.drop_last(), w) + if w.contains(cs.last().name@) {
            0nat
        } else {
            1nat
        }
    }
}

pub proof fn lemma_unvisited_push(cs: Seq<ClassDecl>, w: Seq<Seq<char>>, x: Seq<char>, k: int)
    requires
        0 <= k < cs.len(),
        cs[k].name@ == x,
        !w.contains(x),
    ensures
        unvisited(cs, w.push(x)) < unvisited(cs, w),
    decreases cs.len(),
{
    let init = cs.drop_last();
    let y = cs.last().name@;
    lemma_unvisited_push_le(init, w, x);
    assert(w.push(x)[w.len() as int] == x);
    if w.contains(y) {
        let j = choose|j: int| 0 <= j < w.len() && w[j] == y;
        assert(w.push(x)[j] == y);
    }
    if k < cs.len() - 1 {
        assert(init[k] == cs[k]);
        lemma_unvisited_push(init, w, x, k);
    }
}

pub proof fn lemma_unvisited_push_le(cs: Seq<ClassDecl>, w: Seq<Seq<char>>, x: Seq<char>)
    ensures
        unvisited(cs, w.push(x)) <= unvisited(cs, w),
    decreases cs.len(),
{
    if cs.len() > 0 {
        lemma_unvisited_push_le(cs.drop_last(), w, x);
        if w.contains(cs.last().name@) {
            let j = choose|j: int| 0 <= j < w.len() && w[j] == cs.last().name@;
            assert(w.push(x)[j] == cs.last().name@);
        }
    }
}

/// Visiting the class named `name`, with the names `visited` so far and
/// the order `out` so far: unless it was visited, it is marked, its parent
/// is visited, and it is listed.
pub open spec fn visit_spec(cs: Seq<ClassDecl>, name: Seq<char>, visited: Seq<Seq<char>>, out: Seq<Seq<char>>) -> (
    Seq<Seq<char>>,
    Seq<Seq<char>>,
)
    decreases unvisited(cs, visited),
{
    if visited.contains(name) {
        (visited, out)
    } else {
        let v1 = visited.push(name);
        match last_named(cs, name) {
            Some(i) => match cs[i].parent {
                Some(p) => {
                    proof {
                        lemma_last_named(cs, name);
                        lemma_unvisited_push(cs, visited, name, i);
                    }
                    let r = visit_spec(cs, p@, v1, out);
                    (r.0, r.1.push(name))
                },
                None => (v1, out.push(name)),
            },
            None => (v1, out.push(name)),
        }
    }
}

/// The state after visiting the first `k` classes of `cs`, in order.
pub open spec fn order_from(cs: Seq<ClassDecl>, k: nat) -> (Seq<Seq<char>>, Seq<Seq<char>>)
    decreases k,
{
    if k == 0 || k > cs.len() {
        (Seq::empty(), Seq::empty())
    } else {
        let r = order_from(cs, (k - 1) as nat);
        visit_spec(cs, cs[k - 1].name@, r.0, r.1)
    }
}

/// The order in which classes are laid out: each class after the parent
/// it names (visited first), each name once.
pub open spec fn spec_class_order(cs: Seq<ClassDecl>) -> Seq<Seq<char>> {
    order_from(cs, cs.len()).1
}

/// No name occurs twice in `s`.
pub open spec fn no_repeats(s: Seq<Seq<char>>) -> bool {
    forall|i: int, j: int| 0 <= i < j < s.len() ==> s[i] != s[j]
}

/// A visit keeps the names visited before, marks `name`, and lists, in
/// some order and each once, exactly the names it marks.
pub proof fn lemma_visit_lists_marked(cs: Seq<ClassDecl>, name: Seq<char>, v: Seq<Seq<char>>, o: Seq<Seq<char>>)
    ensures
        ({
            let r = visit_spec(cs, name, v, o);
            &&& forall|x: Seq<char>| v.contains(x) ==> #[trigger] r.0.contains(x)
            &&& r.0.contains(name)
            &&& r.1.len() >= o.len()
            &&& r.1.subrange(0, o.len() as int) == o
            &&& no_repeats(r.1.subrange(o.len() as int, r.1.len() as int))
            &&& forall|x: Seq<char>|
                #[trigger] r.1.subrange(o.len() as int, r.1.len() as int).contains(x) <==> (r.0.contains(x) && !v.contains(x))
        }),
    decreases unvisited(cs, v),
{
    let r = visit_spec(cs, name, v, o);
    if v.contains(name) {
        assert(r.1.subrange(o.len() as int, r.1.len() as int) =~= Seq::<Seq<char>>::empty());
        assert(r.1.subrange(0, o.len() as int) =~= o);
    } else {
        let v1 = v.push(name);
        assert(v1[v.len() as int] == name);
        assert forall|x: Seq<char>| v.contains(x) implies v1.contains(x) by {
            let j = choose|j: int| 0 <= j < v.len() && v[j] == x;
            assert(v1[j] == x);
        }
        assert forall|x: Seq<char>| v1.contains(x) implies v.contains(x) || x == name by {
            let j = choose|j: int| 0 <= j < v1.len() && v1[j] == x;
            if j < v.len() {
                assert(v[j] == x);
            }
        }
        lemma_last_named(cs, name);
        let rec = match last_named(cs, name) {
            Some(i) => cs[i].parent is Some,
            None => false,
        };
        if rec {
            let i = last_named(cs, name).unwrap();
            let p = cs[i].parent.unwrap();
            lemma_unvisited_push(cs, v, name, i);
            lemma_visit_lists_marked(cs, p@, v1, o);
            let r1 = visit_spec(cs, p@, v1, o);
            assert(r == (r1.0, r1.1.push(name)));
            let d1 = r1.1.subrange(o.len() as int, r1.1.len() as int);
            let d = r.1.subrange(o.len() as int, r.1.len() as int);
            assert(d =~= d1.push(name));
            assert(r.1.subrange(0, o.len() as int) =~= r1.1.subrange(0, o.len() as int));
            assert(!d1.contains(name));
            assert forall|a: int, b: int| 0 <= a < b < d.len() implies d[a] != d[b] by {
                if b == d.len() - 1 {
                    assert(d1.contains(d[a]) ==> d[a] != name);
                    assert(d[a] == d1[a]);
                }
            }
            assert forall|x: Seq<char>| #[trigger] d.contains(x) <==> (r.0.contains(x) && !v.contains(x)) by {
                if d.contains(x) {
                    let j = choose|j: int| 0 <= j < d.len() && d[j] == x;
                    if j < d1.len() {
                        assert(d1[j] == x);
                        assert(d1.contains(x));
                        assert(r1.0.contains(x));
                    } else {
                        assert(x == name);
                        assert(v1.contains(name));
                        assert(r1.0.contains(name));
                    }
                }
                if r.0.contains(x) && !v.contains(x) {
                    if x == name {
                        assert(d[d.len() - 1] == x);
                    } else {
                        assert(!v1.contains(x));
                        assert(r1.0.contains(x));
                        assert(d1.contains(x));
                        let j = choose|j: int| 0 <= j < d1.len() && d1[j] == x;
                        assert(d[j] == d1[j]);
                        assert(d[j] == x);
                    }
                }
            }
        } else {
            assert(r == (v1, o.push(name)));
            let d = r.1.subrange(o.len() as int, r.1.len() as int);
            assert(d =~= seq![name]);
            assert(r.1.subrange(0, o.len() as int) =~= o);
            assert forall|x: Seq<char>| #[trigger] d.contains(x) <==> (r.0.contains(x) && !v.contains(x)) by {
                if d.contains(x) {
                    let j = choose|j: int| 0 <= j < d.len() && d[j] == x;
                    assert(x == name);
                }
                if r.0.contains(x) && !v.contains(x) {
                    assert(d[0] == x);
                }
            }
        }
    }
}

/// The order of classes lists each declared class's name once: no name
/// twice, and every class of `cs` is there.
pub proof fn law_class_order_lists_each_once(cs: Seq<ClassDecl>)
    ensures
        no_repeats(spec_class_order(cs)),
        forall|i: int| 0 <= i < cs.len() ==> spec_class_order(cs).contains(#[trigger] cs[i].name@),
{
    lemma_order_from(cs, cs.len());
}

proof fn lemma_order_from(cs: Seq<ClassDecl>, k: nat)
    requires
        k <= cs.len(),
    ensures
        no_repeats(order_from(cs, k).1),
        forall|x: Seq<char>| #[trigger] order_from(cs, k).0.contains(x) <==> order_from(cs, k).1.contains(x),
        forall|i: int| 0 <= i < k ==> order_from(cs, k).1.contains(#[trigger] cs[i].name@),
    decreases k,
{
    if k > 0 {
        lemma_order_from(cs, (k - 1) as nat);
        let prev = order_from(cs, (k - 1) as nat);
        let v = prev.0;
        let o = prev.1;
        lemma_visit_lists_marked(cs, cs[k - 1].name@, v, o);
        let r = order_from(cs, k);
        assert(r == visit_spec(cs, cs[k - 1].name@, v, o));
        let d = r.1.subrange(o.len() as int, r.1.len() as int);
        assert(r.1 =~= o + d) by {
            assert(r.1.subrange(0, o.len() as int) == o);
        }
        assert forall|a: int, b: int| 0 <= a < b < r.1.len() implies r.1[a] != r.1[b] by {
            if b >= o.len() {
                assert(r.1[b] == d[b - o.len()]);
                if a >= o.len() {
                    assert(r.1[a] == d[a - o.len()]);
                } else {
                    assert(r.1[a] == o[a]);
                    assert(o.contains(o[a]));
                    assert(v.contains(o[a]));
                    assert(d.contains(d[b - o.len()]));
                }
            } else {
                assert(r.1[a] == o[a] && r.1[b] == o[b]);
            }
        }
        assert forall|x: Seq<char>| #[trigger] r.0.contains(x) <==> r.1.contains(x) by {
            if r.1.contains(x) {
                let j = choose|j: int| 0 <= j < r.1.len() && r.1[j] == x;
                if j < o.len() {
                    assert(o[j] == x);
                    assert(o.contains(x));
                } else {
                    assert(d[j - o.len()] == x);
                    assert(d.contains(x));
                }
            }
            if r.0.contains(x) {
                if v.contains(x) {
                    assert(o.contains(x));
                    let j = choose|j: int| 0 <= j < o.len() && o[j] == x;
                    assert(r.1[j] == x);
                } else {
                    assert(d.contains(x));
                    let j = choose|j: int| 0 <= j < d.len() && d[j] == x;
                    assert(r.1[o.len() + j] == x);
                }
            }
        }
        assert forall|i: int| 0 <= i < k implies r.1.contains(#[trigger] cs[i].name@) by {
            if i < k - 1 {
                assert(o.contains(cs[i].name@));
                assert(v.contains(cs[i].name@));
            }
            assert(r.0.contains(cs[i].name@));
        }
    }
}

/// The parent named by the class that stands for `x`, if any.
pub open spec fn parent_of(cs: Seq<ClassDecl>, x: Seq<char>) -> Option<Seq<char>> {
    match last_named(cs, x) {
        Some(i) => match cs[i].parent {
            Some(p) => Some(p@),
            None => None,
        },
        None => None,
    }
}

/// The `k`-th ancestor of `x` along the parents the classes name.
pub open spec fn nth_ancestor(cs: Seq<ClassDecl>, x: Seq<char>, k: nat) -> Option<Seq<char>>
    decreases k,
{
    if k == 0 {
        Some(x)
    } else {
        match nth_ancestor(cs, x, (k - 1) as nat) {
            Some(y) => parent_of(cs, y),
            None => None,
        }
    }
}

/// No class is its own ancestor.
pub open spec fn acyclic(cs: Seq<ClassDecl>) -> bool {
    forall|x: Seq<char>, k: nat| k >= 1 ==> #[trigger] nth_ancestor(cs, x, k) != Some(x)
}

/// `a` is a proper ancestor of `x`.
pub open spec fn above(cs: Seq<ClassDecl>, a: Seq<char>, x: Seq<char>) -> bool {
    exists|k: nat| k >= 1 && #[trigger] nth_ancestor(cs, x, k) == Some(a)
}

/// Every name of `o` whose class names a parent comes after that parent.
pub open spec fn parents_listed_first(cs: Seq<ClassDecl>, o: Seq<Seq<char>>) -> bool {
    forall|j: int|
        0 <= j < o.len() ==> match parent_of(cs, #[trigger] o[j]) {
            Some(p) => exists|i: int| 0 <= i < j && o[i] == p,
            None => true,
        }
}

proof fn lemma_unlisted_kept(w: Seq<Seq<char>>, o2: Seq<Seq<char>>, v: Seq<Seq<char>>, o: Seq<Seq<char>>, name: Seq<char>)
    requires
        !v.contains(name),
        forall|y: Seq<char>| (#[trigger] w.contains(y) && !o2.contains(y)) == (v.push(name).contains(y) && !o.contains(y)),
    ensures
        forall|x: Seq<char>| (#[trigger] w.contains(x) && !o2.push(name).contains(x)) == (v.contains(x) && !o.contains(x)),
{
    let v1 = v.push(name);
    let o3 = o2.push(name);
    assert forall|x: Seq<char>| (#[trigger] w.contains(x) && !o3.contains(x)) == (v.contains(x) && !o.contains(x)) by {
        assert((w.contains(x) && !o2.contains(x)) == (v1.contains(x) && !o.contains(x)));
        if o2.contains(x) {
            let j = choose|j: int| 0 <= j < o2.len() && o2[j] == x;
            assert(o3[j] == x);
        }
        if o3.contains(x) && x != name {
            let j = choose|j: int| 0 <= j < o3.len() && o3[j] == x;
            assert(o2[j] == x);
        }
        if v1.contains(x) && x != name {
            let j = choose|j: int| 0 <= j < v1.len() && v1[j] == x;
            assert(v[j] == x);
        }
        if v.contains(x) {
            let j = choose|j: int| 0 <= j < v.len() && v[j] == x;
            assert(v1[j] == x);
        }
        assert(o3[o2.len() as int] == name);
    }
}

proof fn lemma_visit_parents_first(cs: Seq<ClassDecl>, name: Seq<char>, v: Seq<Seq<char>>, o: Seq<Seq<char>>)
    requires
        acyclic(cs),
        forall|x: Seq<char>| o.contains(x) ==> #[trigger] v.contains(x),
        parents_listed_first(cs, o),
        forall|u: Seq<char>| #[trigger] v.contains(u) && !o.contains(u) ==> above(cs, name, u),
    ensures
        ({
            let r = visit_spec(cs, name, v, o);
            &&& forall|x: Seq<char>| r.1.contains(x) ==> #[trigger] r.0.contains(x)
            &&& parents_listed_first(cs, r.1)
            &&& r.1.contains(name)
            &&& forall|x: Seq<char>| (#[trigger] r.0.contains(x) && !r.1.contains(x)) == (v.contains(x) && !o.contains(x))
        }),
    decreases unvisited(cs, v),
{
    let r = visit_spec(cs, name, v, o);
    lemma_visit_lists_marked(cs, name, v, o);
    if v.contains(name) {
        if !o.contains(name) {
            assert(above(cs, name, name));
            let k = choose|k: nat| k >= 1 && #[trigger] nth_ancestor(cs, name, k) == Some(name);
            assert(nth_ancestor(cs, name, k) != Some(name));
        }
    } else {
        let v1 = v.push(name);
        assert(v1[v.len() as int] == name);
        assert forall|x: Seq<char>| v.contains(x) implies v1.contains(x) by {
            let j = choose|j: int| 0 <= j < v.len() && v[j] == x;
            assert(v1[j] == x);
        }
        assert forall|x: Seq<char>| v1.contains(x) implies v.contains(x) || x == name by {
            let j = choose|j: int| 0 <= j < v1.len() && v1[j] == x;
            if j < v.len() {
                assert(v[j] == x);
            }
        }
        assert(!o.contains(name));
        lemma_last_named(cs, name);
        let rec = match last_named(cs, name) {
            Some(i) => cs[i].parent is Some,
            None => false,
        };
        if rec {
            let i = last_named(cs, name).unwrap();
            let p = cs[i].parent.unwrap();
            assert(parent_of(cs, name) == Some(p@));
            assert(nth_ancestor(cs, name, 0) == Some(name));
            assert(nth_ancestor(cs, name, 1) == Some(p@));
            assert forall|u: Seq<char>| #[trigger] v1.contains(u) && !o.contains(u) implies above(cs, p@, u) by {
                if u == name {
                    assert(nth_ancestor(cs, u, 1) == Some(p@));
                } else {
                    assert(v.contains(u));
                    let k = choose|k: nat| k >= 1 && #[trigger] nth_ancestor(cs, u, k) == Some(name);
                    assert(nth_ancestor(cs, u, k + 1) == Some(p@));
                }
            }
            lemma_unvisited_push(cs, v, name, i);
            lemma_visit_parents_first(cs, p@, v1, o);
            lemma_visit_lists_marked(cs, p@, v1, o);
            let r1 = visit_spec(cs, p@, v1, o);
            assert(r == (r1.0, r1.1.push(name)));
            let o2 = r1.1;
            assert(r1.0.contains(name));
            assert(!o2.contains(name)) by {
                if o2.contains(name) {
                    assert(!(r1.0.contains(name) && !o2.contains(name)));
                }
            }
            let o3 = o2.push(name);
            assert(o3[o2.len() as int] == name);
            assert forall|x: Seq<char>| o3.contains(x) implies #[trigger] r.0.contains(x) by {
                let j = choose|j: int| 0 <= j < o3.len() && o3[j] == x;
                if j < o2.len() {
                    assert(o2[j] == x);
                    assert(o2.contains(x));
                }
            }
            assert forall|j: int| 0 <= j < o3.len() implies match parent_of(cs, #[trigger] o3[j]) {
                Some(q) => exists|i: int| 0 <= i < j && o3[i] == q,
                None => true,
            } by {
                if j < o2.len() {
                    assert(o3[j] == o2[j]);
                    match parent_of(cs, o2[j]) {
                        Some(q) => {
                            let i0 = choose|i: int| 0 <= i < j && o2[i] == q;
                            assert(o3[i0] == q);
                        },
                        None => {},
                    }
                } else {
                    let i0 = choose|i: int| 0 <= i < o2.len() && o2[i] == p@;
                    assert(o3[i0] == p@);
                }
            }
            lemma_unlisted_kept(r1.0, o2, v, o, name);
        } else {
            assert(parent_of(cs, name) is None);
            let o3 = o.push(name);
            assert(r == (v1, o3));
            assert(o3[o.len() as int] == name);
            assert forall|x: Seq<char>| o3.contains(x) implies #[trigger] v1.contains(x) by {
                let j = choose|j: int| 0 <= j < o3.len() && o3[j] == x;
                if j < o.len() {
                    assert(o[j] == x);
                }
            }
            assert forall|j: int| 0 <= j < o3.len() implies match parent_of(cs, #[trigger] o3[j]) {
                Some(q) => exists|i: int| 0 <= i < j && o3[i] == q,
                None => true,
            } by {
                if j < o.len() {
                    assert(o3[j] == o[j]);
                    match parent_of(cs, o[j]) {
                        Some(q) => {
                            let i0 = choose|i: int| 0 <= i < j && o[i] == q;
                            assert(o3[i0] == q);
                        },
                        None => {},
                    }
                }
            }
            assert forall|x: Seq<char>| (#[trigger] v1.contains(x) && !o3.contains(x)) == (v.contains(x) && !o.contains(x)) by {
                if o.contains(x) {
                    let j = choose|j: int| 0 <= j < o.len() && o[j] == x;
                    assert(o3[j] == x);
                }
                if o3.contains(x) && x != name {
                    let j = choose|j: int| 0 <= j < o3.len() && o3[j] == x;
                    assert(o[j] == x);
                }
            }
        }
    }
}

proof fn lemma_order_parents_first(cs: Seq<ClassDecl>, k: nat)
    requires
        acyclic(cs),
        k <= cs.len(),
    ensures
        parents_listed_first(cs, order_from(cs, k).1),
    decreases k,
{
    lemma_order_from(cs, k);
    if k > 0 {
        lemma_order_parents_first(cs, (k - 1) as nat);
        lemma_order_from(cs, (k - 1) as nat);
        let prev = order_from(cs, (k - 1) as nat);
        lemma_visit_parents_first(cs, cs[k - 1].name@, prev.0, prev.1);
    }
}

/// When no class is its own ancestor, every class of the order comes after
/// the parent it names.
pub proof fn law_class_order_parents_first(cs: Seq<ClassDecl>)
    requires
        acyclic(cs),
    ensures
        parents_listed_first(cs, spec_class_order(cs)),
{
    lemma_order_parents_first(cs, cs.len());
}

fn find_last_named(cs: &Vec<ClassDecl>, name: &str) -> (r: Option<usize>)
    ensures
        match r {
            Some(i) => last_named(cs@, name@) == Some(i as int),
            None => last_named(cs@, name@) is None,
        },
{
    let mut i: usize = cs.len();
    assert(cs@.subrange(0, cs@.len() as int) =~= cs@);
    while i > 0
        invariant
            i <= cs.len(),
            last_named(cs@, name@) == last_named(cs@.subrange(0, i as int), name@),
        decreases i,
    {
        let sub = Ghost(cs@.subrange(0, i as int));
        assert(sub@.drop_last() =~= cs@.subrange(0, i - 1));
        if str_eq(cs[i - 1].name.as_str(), name) {
            return Some(i - 1);
        }
        i = i - 1;
    }
    None
}

proof fn lemma_views_push(v: Seq<String>, s: String)
    ensures
        string_views(v.push(s)) == string_views(v).push(s@),
{
    assert(string_views(v.push(s)) =~= string_views(v).push(s@));
}

fn visit_class(cs: &Vec<ClassDecl>, name: &str, visited: &mut Vec<String>, out: &mut Vec<String>)
    ensures
        (string_views(final(visited)@), string_views(final(out)@)) == visit_spec(cs@, name@, string_views(
            old(visited)@,
        ), string_views(old(out)@)),
    decreases unvisited(cs@, string_views(old(visited)@)),
{
    if contains_string(visited, name) {
        return;
    }
    let ghost v0 = string_views(visited@);
    let mark = name.to_string();
    proof {
        lemma_views_push(visited@, mark);
    }
    visited.push(mark);
    assert(string_views(visited@) == v0.push(name@));
    let found = find_last_named(cs, name);
    proof {
        lemma_last_named(cs@, name@);
    }
    match found {
        Some(i) => match &cs[i].parent {
            Some(p) => {
                proof {
                    lemma_last_named(cs@, name@);
                    lemma_unvisited_push(cs@, v0, name@, i as int);
                }
                visit_class(cs, p.as_str(), visited, out);
            },
            None => {},
        },
        None => {},
    }
    let listed = name.to_string();
    proof {
        lemma_views_push(out@, listed);
    }
    out.push(listed);
}

/// The names of the classes in the order in which they are laid out:
/// each class comes after the parent it names, which is visited first.
pub fn class_order(classes: &Vec<ClassDecl>) -> (r: Vec<String>)
    ensures
        string_views(r@) == spec_class_order(classes@),
{
    let mut visited: Vec<String> = Vec::new();
    let mut out: Vec<String> = Vec::new();
    let mut k: usize = 0;
    assert(string_views(visited@) =~= Seq::<Seq<char>>::empty());
    assert(string_views(out@) =~= Seq::<Seq<char>>::empty());
    while k < classes.len()
        invariant
            k <= classes.len(),
            (string_views(visited@), string_views(out@)) == order_from(classes@, k as nat),
        decreases classes.len() - k,
    {
        visit_class(classes, classes[k].name.as_str(), &mut visited, &mut out);
        k = k + 1;
    }
    out
}

// ── Fields a constructor copies from its parent's object ──

/// The last place of the field named `name` in `f`.
pub open spec fn last_field(f: Seq<(Seq<char>, TypeV)>, name: Seq<char>) -> Option<int>
    decreases f.len(),
{
    if f.len() == 0 {
        None
    } else if f.last().0 == name {
        Some(f.len() - 1)
    } else {
        last_field(f.drop_last(), name)
    }
}

/// The copies from an object with fields `pf` into one with fields `cf`,
/// for the first `k` fields of `pf`: each field's name, its place in the
/// first and in the second (after the two header slots) and its type,
/// where the second has a field of that name.
pub open spec fn copies_upto(pf: Seq<(Seq<char>, TypeV)>, cf: Seq<(Seq<char>, TypeV)>, k: int) -> Seq<
    (Seq<char>, int, int, TypeV),
>
    decreases k,
{
    if k <= 0 || k > pf.len() {
        Seq::empty()
    } else {
        let prev = copies_upto(pf, cf, k - 1);
        let name = pf[k - 1].0;
        match (last_field(pf, name), last_field(cf, name)) {
            (Some(p), Some(c)) => prev.push((name, p + 2, c + 2, pf[k - 1].1)),
            _ => prev,
        }
    }
}

/// The copies a constructor of class `child` makes of the fields of the
/// object that the constructor of `parent` built.
pub open spec fn spec_inherited_copies(classes: Seq<ClassInfo>, child: Seq<char>, parent: Seq<char>) -> Seq<
    (Seq<char>, int, int, TypeV),
> {
    let pf = spec_object_fields(classes, parent);
    copies_upto(pf, spec_object_fields(classes, child), pf.len() as int)
}

pub open spec fn copies_view(c: Seq<(String, usize, usize, HulkType)>) -> Seq<(Seq<char>, int, int, TypeV)> {
    c.map_values(|x: (String, usize, usize, HulkType)| (x.0@, x.1 as int, x.2 as int, x.3@))
}

fn find_last_field(f: &Vec<(String, HulkType)>, name: &str) -> (r: Option<usize>)
    ensures
        match r {
            Some(i) => last_field(fields_view(f@), name@) == Some(i as int) && i < f@.len(),
            None => last_field(fields_view(f@), name@) is None,
        },
{
    let mut i: usize = f.len();
    assert(fields_view(f@).subrange(0, f@.len() as int) =~= fields_view(f@));
    while i > 0
        invariant
            i <= f.len(),
            last_field(fields_view(f@), name@) == last_field(fields_view(f@).subrange(0, i as int), name@),
        decreases i,
    {
        let ghost sub = fields_view(f@).subrange(0, i as int);
        assert(sub.drop_last() =~= fields_view(f@).subrange(0, i - 1));
        if str_eq(f[i - 1].0.as_str(), name) {
            return Some(i - 1);
        }
        i = i - 1;
    }
    None
}

/// The fields that the constructor of `class_name` copies from the object
/// built by the constructor of `parent_name`: each field's name, its place
/// in the parent object and in the child object (counting the two header
/// slots), and its type.
pub fn inherited_copies(symbols: &SymbolTable, class_name: &str, parent_name: &str) -> (r: Vec<
    (String, usize, usize, HulkType),
>)
    requires
        spec_object_fields(symbols.classes@, parent_name@).len() + 2 <= usize::MAX,
        spec_object_fields(symbols.classes@, class_name@).len() + 2 <= usize::MAX,
    ensures
        copies_view(r@) == spec_inherited_copies(symbols.classes@, class_name@, parent_name@),
{
    let pf = object_fields(symbols, parent_name);
    let cf = object_fields(symbols, class_name);
    let mut out: Vec<(String, usize, usize, HulkType)> = Vec::new();
    let mut k: usize = 0;
    assert(copies_view(out@) =~= copies_upto(fields_view(pf@), fields_view(cf@), 0));
    while k < pf.len()
        invariant
            k <= pf.len(),
            fields_view(pf@) == spec_object_fields(symbols.classes@, parent_name@),
            fields_view(cf@) == spec_object_fields(symbols.classes@, class_name@),
            pf@.len() + 2 <= usize::MAX,
            cf@.len() + 2 <= usize::MAX,
            copies_view(out@) == copies_upto(fields_view(pf@), fields_view(cf@), k as int),
        decreases pf.len() - k,
    {
        let name = &pf[k].0;
        assert(fields_view(pf@)[k as int].0 == name@);
        match (find_last_field(&pf, name.as_str()), find_last_field(&cf, name.as_str())) {
            (Some(p), Some(c)) => {
                let entry = (name.clone(), p + 2, c + 2, pf[k].1.duplicate());
                proof {
                    assert(copies_view(out@.push(entry)) =~= copies_view(out@).push(
                        (name@, p + 2, c + 2, pf@[k as int].1@),
                    ));
                }
                out.push(entry);
            },
            _ => {},
        }
        k = k + 1;
    }
    out
}

/// The last place of a name in fields whose names are distinct is the
/// place where it stands.
proof fn lemma_last_field_distinct(f: Seq<(Seq<char>, TypeV)>, k: int)
    requires
        0 <= k < f.len(),
        forall|i: int, j: int| 0 <= i < j < f.len() ==> f[i].0 != f[j].0,
    ensures
        last_field(f, f[k].0) == Some(k),
    decreases f.len(),
{
    if k < f.len() - 1 {
        let g = f.drop_last();
        assert(g[k] == f[k]);
        assert(f.last().0 != f[k].0);
        lemma_last_field_distinct(g, k);
    }
}

proof fn lemma_copies_in_place(pf: Seq<(Seq<char>, TypeV)>, own: Seq<(Seq<char>, TypeV)>, m: int)
    requires
        0 <= m <= pf.len(),
        forall|i: int, j: int| 0 <= i < j < (pf + own).len() ==> (pf + own)[i].0 != (pf + own)[j].0,
    ensures
        copies_upto(pf, pf + own, m).len() == m,
        forall|k: int| 0 <= k < m ==> #[trigger] copies_upto(pf, pf + own, m)[k] == (pf[k].0, k + 2, k + 2, pf[k].1),
    decreases m,
{
    if m > 0 {
        lemma_copies_in_place(pf, own, m - 1);
        let cf = pf + own;
        assert(cf[m - 1] == pf[m - 1]);
        assert forall|i: int, j: int| 0 <= i < j < pf.len() implies pf[i].0 != pf[j].0 by {
            assert(cf[i] == pf[i] && cf[j] == pf[j]);
        }
        lemma_last_field_distinct(pf, m - 1);
        lemma_last_field_distinct(cf, m - 1);
    }
}

/// When no field name repeats in an object of class `c`, whose parent is
/// `p` (inheritance without a cycle through `c`), its constructor copies
/// every field of the parent's object, each to the same place.
pub proof fn law_inherited_copies_in_place(classes: Seq<ClassInfo>, c: Seq<char>, p: Seq<char>)
    requires
        find_class(classes, c) matches Some(ci) && ci.parent matches Some(q) && q@ == p,
        !spec_ancestors(classes, p).contains(c),
        forall|i: int, j: int|
            0 <= i < j < spec_object_fields(classes, c).len() ==> spec_object_fields(classes, c)[i].0
                != spec_object_fields(classes, c)[j].0,
    ensures
        spec_inherited_copies(classes, c, p).len() == spec_object_fields(classes, p).len(),
        forall|k: int|
            0 <= k < spec_object_fields(classes, p).len() ==> #[trigger] spec_inherited_copies(classes, c, p)[k] == (
                spec_object_fields(classes, p)[k].0,
                k + 2,
                k + 2,
                spec_object_fields(classes, p)[k].1,
            ),
{
    law_parent_fields_first(classes, c, p);
    let pf = spec_object_fields(classes, p);
    let own = attrs_view(find_class(classes, c).unwrap().attributes@);
    lemma_copies_in_place(pf, own, pf.len() as int);
}

// ── Arguments a constructor passes on to its parent's ──

/// The names of a list of parameters.
pub open spec fn param_names(ps: Seq<(String, HulkType)>) -> Seq<Seq<char>> {
    ps.map_values(|p: (String, HulkType)| p.0@)
}

/// How a constructor that gives its parent's constructor no arguments
/// fills the parent's parameter at `i`: with the variable named like that
/// parameter when one is bound, else with its own parameter at the same
/// place when it has one and it is bound; `None` where neither holds, and
/// the parameter's default value goes there.
pub open spec fn forwarded_source(parent: Seq<Seq<char>>, own: Seq<Seq<char>>, bound: Seq<Seq<char>>, i: int) -> Option<
    Seq<char>,
> {
    if bound.contains(parent[i]) {
        Some(parent[i])
    } else if i < own.len() && bound.contains(own[i]) {
        Some(own[i])
    } else {
        None
    }
}

pub open spec fn opt_string_view(o: Option<String>) -> Option<Seq<char>> {
    match o {
        Some(s) => Some(s@),
        None => None,
    }
}

/// For each parameter of the parent's constructor, the variable whose
/// value the constructor passes on, given the names `bound` to variables.
pub fn forwarded_args(parent_params: &Vec<(String, HulkType)>, own_params: &Vec<(String, HulkType)>, bound: &Vec<String>) -> (r: Vec<
    Option<String>,
>)
    ensures
        r@.len() == parent_params@.len(),
        forall|i: int|
            0 <= i < r@.len() ==> opt_string_view(#[trigger] r@[i]) == forwarded_source(
                param_names(parent_params@),
                param_names(own_params@),
                string_views(bound@),
                i,
            ),
{
    let mut out: Vec<Option<String>> = Vec::new();
    let mut i: usize = 0;
    while i < parent_params.len()
        invariant
            i <= parent_params.len(),
            out@.len() == i,
            forall|j: int|
                0 <= j < i ==> opt_string_view(#[trigger] out@[j]) == forwarded_source(
                    param_names(parent_params@),
                    param_names(own_params@),
                    string_views(bound@),
                    j,
                ),
        decreases parent_params.len() - i,
    {
        let name = &parent_params[i].0;
        assert(param_names(parent_params@)[i as int] == name@);
        let source = if contains_string(bound, name.as_str()) {
            Some(name.clone())
        } else if i < own_params.len() && contains_string(bound, own_params[i].0.as_str()) {
            assert(param_names(own_params@)[i as int] == own_params@[i as int].0@);
            Some(own_params[i].0.clone())
        } else {
            None
        };
        out.push(source);
        i = i + 1;
    }
    out
}

} // verus!
