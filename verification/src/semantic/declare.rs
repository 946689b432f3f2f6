//! The declaration pass: every type, relation and permission name is declared in the
//! index, and names declared twice are reported.
use crate::ast::{ranges_ordered, Ast, DefMember, DefMemberId, LetMember, LetMemberId, TypeDef, TypeDefId};
use crate::diagnostic::{Diagnostic, DiagnosticView, Reporter};
use crate::semantic::errors::{
    duplicate_permission, duplicate_permission_view, duplicate_relation, duplicate_relation_view, duplicate_type,
    duplicate_type_view, name_collision_view, relation_permission_name_collision,
};
use crate::semantic::index::{
    declare_permission_model, declare_relation_model, declare_type_model, empty_model, entry_span, has_room,
    permission_entry, relation_entry, IndexModel,
};
use crate::semantic::Context;
use crate::span::Span;
use vstd::prelude::*;

verus! {

/// The views of a sequence of diagnostics.
pub open spec fn views(ds: Seq<Diagnostic>) -> Seq<DiagnosticView> {
    ds.map_values(|d: Diagnostic| d@)
}

/// Declares let member `l` in slot `scope` as a relation, reporting a relation of the
/// same name declared before in the slot, then a permission of the same name.
pub open spec fn let_step(src: Seq<u8>, m: IndexModel, scope: nat, l: LetMember) -> (IndexModel, Seq<DiagnosticView>) {
    let name = l.name.text_of(src);
    let (m1, prev) = declare_relation_model(m, scope, l.name, name, l.expr);
    let d1 = match prev {
        Some(p) => seq![duplicate_relation_view(l.name, p, name)],
        None => Seq::empty(),
    };
    let d2 = match entry_span(permission_entry(m1, scope as int, name)) {
        Some(p) => seq![name_collision_view(p, l.name, name)],
        None => Seq::empty(),
    };
    (m1, d1 + d2)
}

/// Declares the let members `k..hi` in slot `scope`, in order.
pub open spec fn declare_lets(
    lets: Seq<LetMember>,
    src: Seq<u8>,
    m: IndexModel,
    scope: nat,
    k: int,
    hi: int,
) -> (IndexModel, Seq<DiagnosticView>)
    decreases hi - k,
{
    if k >= hi || k < 0 || k >= lets.len() {
        (m, Seq::empty())
    } else {
        let (m1, d) = let_step(src, m, scope, lets[k]);
        let (m2, rest) = declare_lets(lets, src, m1, scope, k + 1, hi);
        (m2, d + rest)
    }
}

/// Declares def member `d` in slot `scope` as a permission, reporting a permission of
/// the same name declared before in the slot, then a relation of the same name.
pub open spec fn def_step(src: Seq<u8>, m: IndexModel, scope: nat, d: DefMember) -> (IndexModel, Seq<DiagnosticView>) {
    let name = d.name.text_of(src);
    let (m1, prev) = declare_permission_model(m, scope, d.name, name, d.expr);
    let d1 = match prev {
        Some(p) => seq![duplicate_permission_view(d.name, p, name)],
        None => Seq::empty(),
    };
    let d2 = match entry_span(relation_entry(m1, scope as int, name)) {
        Some(r) => seq![name_collision_view(d.name, r, name)],
        None => Seq::empty(),
    };
    (m1, d1 + d2)
}

/// Declares the def members `k..hi` in slot `scope`, in order.
pub open spec fn declare_defs(
    defs: Seq<DefMember>,
    src: Seq<u8>,
    m: IndexModel,
    scope: nat,
    k: int,
    hi: int,
) -> (IndexModel, Seq<DiagnosticView>)
    decreases hi - k,
{
    if k >= hi || k < 0 || k >= defs.len() {
        (m, Seq::empty())
    } else {
        let (m1, step) = def_step(src, m, scope, defs[k]);
        let (m2, rest) = declare_defs(defs, src, m1, scope, k + 1, hi);
        (m2, step + rest)
    }
}

/// Declares the type `i` of the schema: a name declared before is reported and its
/// members are skipped; otherwise its lets, then its defs, are declared in slot `i`.
pub open spec fn declare_type_def(
    types: Seq<TypeDef>,
    lets: Seq<LetMember>,
    defs: Seq<DefMember>,
    src: Seq<u8>,
    m: IndexModel,
    i: int,
) -> (IndexModel, Seq<DiagnosticView>) {
    let t = types[i];
    let name = t.name.text_of(src);
    let (m1, prev) = declare_type_model(m, TypeDefId::of(i as nat), t.name, name);
    match prev {
        Some(p) => (m1, seq![duplicate_type_view(t.name, p, name)]),
        None => {
            let (m2, dl) = declare_lets(lets, src, m1, i as nat, t.lets.lo() as int, t.lets.hi() as int);
            let (m3, dd) = declare_defs(defs, src, m2, i as nat, t.defs.lo() as int, t.defs.hi() as int);
            (m3, dl + dd)
        },
    }
}

/// Declares the types `i..` of the schema, in order.
pub open spec fn declare_types(
    types: Seq<TypeDef>,
    lets: Seq<LetMember>,
    defs: Seq<DefMember>,
    src: Seq<u8>,
    m: IndexModel,
    i: int,
) -> (IndexModel, Seq<DiagnosticView>)
    decreases types.len() - i,
{
    if i < 0 || i >= types.len() {
        (m, Seq::empty())
    } else {
        let (m1, d) = declare_type_def(types, lets, defs, src, m, i);
        let (m2, rest) = declare_types(types, lets, defs, src, m1, i + 1);
        (m2, d + rest)
    }
}

/// The index and the diagnostics of the declaration pass over a whole schema.
pub open spec fn declare_pass(ast: Ast, src: Seq<u8>) -> (IndexModel, Seq<DiagnosticView>) {
    declare_types(ast.type_nodes(), ast.let_nodes(), ast.def_nodes(), src, empty_model(), 0)
}

/// The number of let members of types `0..i`, counted per type.
pub open spec fn let_visits(types: Seq<TypeDef>, i: int) -> int
    decreases i,
{
    if i <= 0 {
        0
    } else {
        let_visits(types, i - 1) + (types[i - 1].lets.hi() - types[i - 1].lets.lo())
    }
}

/// The number of def members of types `0..i`, counted per type.
pub open spec fn def_visits(types: Seq<TypeDef>, i: int) -> int
    decreases i,
{
    if i <= 0 {
        0
    } else {
        def_visits(types, i - 1) + (types[i - 1].defs.hi() - types[i - 1].defs.lo())
    }
}

/// With ordered member ranges, the members of the first `i` types number at most the
/// end of the range of type `i - 1`.
proof fn lemma_visits(types: Seq<TypeDef>, i: int)
    requires
        ranges_ordered(types),
        forall|j: int| 0 <= j < types.len() ==> (#[trigger] types[j]).lets.wf() && types[j].defs.wf(),
        0 <= i <= types.len(),
    ensures
        let_visits(types, i) <= (if i == 0 { 0 } else { types[i - 1].lets.hi() as int }),
        def_visits(types, i) <= (if i == 0 { 0 } else { types[i - 1].defs.hi() as int }),
        0 <= let_visits(types, i),
        0 <= def_visits(types, i),
    decreases i,
{
    if i > 0 {
        lemma_visits(types, i - 1);
        if i > 1 {
            assert(types[i - 2].lets.hi() <= types[i - 1].lets.lo());
        }
        assert(types[i - 1].lets.wf() && types[i - 1].defs.wf());
    }
}

/// Declares one let member and reports what collides with it.
fn declare_let<'src, R: Reporter>(ctx: &mut Context<'src, R>, scope: TypeDefId, l: LetMember)
    requires
        old(ctx).index.wf(),
        has_room(old(ctx).index.model()),
        l.name.fits(old(ctx).src()),
    ensures
        final(ctx).index.wf(),
        final(ctx).file == old(ctx).file,
        final(ctx).index.model() == let_step(old(ctx).src(), old(ctx).index.model(), scope.idx(), l).0,
        views(final(ctx).reporter.reported()) == views(old(ctx).reporter.reported())
            + let_step(old(ctx).src(), old(ctx).index.model(), scope.idx(), l).1,
        final(ctx).index.model().types == old(ctx).index.model().types,
        final(ctx).index.model().permission_names == old(ctx).index.model().permission_names,
        final(ctx).index.model().relation_names.len() <= old(ctx).index.model().relation_names.len() + 1,
{
    let ghost m = ctx.index.model();
    let ghost before = ctx.reporter.reported();
    let span = l.name;
    let name = span.text(ctx.file.source());
    let prev = ctx.index.declare_relation(scope, span, name, l.expr);
    if let Some(p) = prev {
        let d = duplicate_relation(span, p, name);
        ctx.report(d);
    }
    let ghost mid = ctx.reporter.reported();
    let collision = ctx.index.permission_collision(scope, name);
    if let Some(perm_span) = collision {
        let d = relation_permission_name_collision(perm_span, span, name);
        ctx.report(d);
    }
    proof {
        let step = let_step(ctx.src(), m, scope.idx(), l);
        assert(views(ctx.reporter.reported()) =~= views(before) + step.1);
    }
}

/// Declares one def member and reports what collides with it.
fn declare_def<'src, R: Reporter>(ctx: &mut Context<'src, R>, scope: TypeDefId, d: DefMember)
    requires
        old(ctx).index.wf(),
        has_room(old(ctx).index.model()),
        d.name.fits(old(ctx).src()),
    ensures
        final(ctx).index.wf(),
        final(ctx).file == old(ctx).file,
        final(ctx).index.model() == def_step(old(ctx).src(), old(ctx).index.model(), scope.idx(), d).0,
        views(final(ctx).reporter.reported()) == views(old(ctx).reporter.reported())
            + def_step(old(ctx).src(), old(ctx).index.model(), scope.idx(), d).1,
        final(ctx).index.model().types == old(ctx).index.model().types,
        final(ctx).index.model().relation_names == old(ctx).index.model().relation_names,
        final(ctx).index.model().permission_names.len() <= old(ctx).index.model().permission_names.len() + 1,
{
    let ghost m = ctx.index.model();
    let ghost before = ctx.reporter.reported();
    let span = d.name;
    let name = span.text(ctx.file.source());
    let prev = ctx.index.declare_permission(scope, span, name, d.expr);
    if let Some(p) = prev {
        let diag = duplicate_permission(span, p, name);
        ctx.report(diag);
    }
    let collision = ctx.index.relation_collision(scope, name);
    if let Some(rel) = collision {
        let diag = relation_permission_name_collision(span, rel, name);
        ctx.report(diag);
    }
    proof {
        let step = def_step(ctx.src(), m, scope.idx(), d);
        assert(views(ctx.reporter.reported()) =~= views(before) + step.1);
    }
}

/// Declares type `i` of the schema and, unless its name was declared before, its members.
fn declare_one_type<'src, R: Reporter>(ctx: &mut Context<'src, R>, ast: &Ast, i: usize)
    requires
        old(ctx).index.wf(),
        ast.wf(),
        ast.fits(old(ctx).src()),
        i < ast.type_nodes().len() < u32::MAX,
        ast.let_nodes().len() < u32::MAX,
        ast.def_nodes().len() < u32::MAX,
        old(ctx).index.model().types.len() <= i,
        old(ctx).index.model().relation_names.len() + ast.type_nodes()[i as int].lets.hi()
            - ast.type_nodes()[i as int].lets.lo() < u32::MAX,
        old(ctx).index.model().permission_names.len() + ast.type_nodes()[i as int].defs.hi()
            - ast.type_nodes()[i as int].defs.lo() < u32::MAX,
    ensures
        final(ctx).index.wf(),
        final(ctx).file == old(ctx).file,
        final(ctx).index.model() == declare_type_def(
            ast.type_nodes(),
            ast.let_nodes(),
            ast.def_nodes(),
            old(ctx).src(),
            old(ctx).index.model(),
            i as int,
        ).0,
        views(final(ctx).reporter.reported()) == views(old(ctx).reporter.reported()) + declare_type_def(
            ast.type_nodes(),
            ast.let_nodes(),
            ast.def_nodes(),
            old(ctx).src(),
            old(ctx).index.model(),
            i as int,
        ).1,
        final(ctx).index.model().types.len() <= old(ctx).index.model().types.len() + 1,
        final(ctx).index.model().relation_names.len() <= old(ctx).index.model().relation_names.len()
            + ast.type_nodes()[i as int].lets.hi() - ast.type_nodes()[i as int].lets.lo(),
        final(ctx).index.model().permission_names.len() <= old(ctx).index.model().permission_names.len()
            + ast.type_nodes()[i as int].defs.hi() - ast.type_nodes()[i as int].defs.lo(),
{
    let ghost src = ctx.src();
    let ghost m0 = ctx.index.model();
    let ghost rep0 = ctx.reporter.reported();
    let ghost lets = ast.let_nodes();
    let ghost defs = ast.def_nodes();
    let id = TypeDefId::new(i as u32);
    let t = *ast.types().at(id);
    let name = t.name.text(ctx.file.source());
    match ctx.index.declare_type(id, t.name, name) {
        Some(prev) => {
            let d = duplicate_type(t.name, prev, name);
            ctx.report(d);
            proof {
                assert(views(ctx.reporter.reported()) =~= views(rep0) + seq![d@]);
            }
        },
        None => {
            let ghost m1 = ctx.index.model();
            let ghost rep1 = ctx.reporter.reported();
            let ghost total_lets = declare_lets(lets, src, m1, i as nat, t.lets.lo() as int, t.lets.hi() as int);
            let lo = t.lets.start().as_index();
            let hi = t.lets.end().as_index();
            let mut k = lo;
            while k < hi
                invariant
                    lo <= k <= hi <= lets.len(),
                    lo == t.lets.lo(),
                    id.idx() == i as nat,
                    hi == t.lets.hi(),
                    lets == ast.let_nodes(),
                    ast.fits(src),
                    lets.len() < u32::MAX,
                    src == ctx.src(),
                    ctx.index.wf(),
                    ctx.file == old(ctx).file,
                    declare_lets(lets, src, ctx.index.model(), i as nat, k as int, hi as int).0 == total_lets.0,
                    views(ctx.reporter.reported()) + declare_lets(lets, src, ctx.index.model(), i as nat, k as int, hi as int).1
                        == views(rep1) + total_lets.1,
                    ctx.index.model().types == m1.types,
                    ctx.index.model().permission_names == m1.permission_names,
                    ctx.index.model().types.len() < u32::MAX,
                    ctx.index.model().permission_names.len() < u32::MAX,
                    ctx.index.model().relation_names.len() <= m1.relation_names.len() + (k - lo),
                    m1.relation_names.len() + (hi - lo) < u32::MAX,
                decreases hi - k,
            {
                let ghost mk = ctx.index.model();
                let ghost repk = ctx.reporter.reported();
                let l = *ast.lets().at(LetMemberId::new(k as u32));
                declare_let(ctx, id, l);
                proof {
                    let step = let_step(src, mk, i as nat, l);
                    let rest = declare_lets(lets, src, ctx.index.model(), i as nat, k + 1, hi as int);
                    assert(declare_lets(lets, src, mk, i as nat, k as int, hi as int) == (rest.0, step.1 + rest.1));
                    assert(views(repk) + step.1 + rest.1 =~= views(repk) + (step.1 + rest.1));
                }
                k = k + 1;
            }
            let ghost m2 = ctx.index.model();
            let ghost rep2 = ctx.reporter.reported();
            let ghost total_defs = declare_defs(defs, src, m2, i as nat, t.defs.lo() as int, t.defs.hi() as int);
            let dlo = t.defs.start().as_index();
            let dhi = t.defs.end().as_index();
            let mut k = dlo;
            while k < dhi
                invariant
                    dlo <= k <= dhi <= defs.len(),
                    dlo == t.defs.lo(),
                    id.idx() == i as nat,
                    dhi == t.defs.hi(),
                    defs == ast.def_nodes(),
                    ast.fits(src),
                    defs.len() < u32::MAX,
                    src == ctx.src(),
                    ctx.index.wf(),
                    ctx.file == old(ctx).file,
                    declare_defs(defs, src, ctx.index.model(), i as nat, k as int, dhi as int).0 == total_defs.0,
                    views(ctx.reporter.reported()) + declare_defs(defs, src, ctx.index.model(), i as nat, k as int, dhi as int).1
                        == views(rep2) + total_defs.1,
                    ctx.index.model().types == m1.types,
                    ctx.index.model().relation_names == m2.relation_names,
                    ctx.index.model().types.len() < u32::MAX,
                    ctx.index.model().relation_names.len() < u32::MAX,
                    ctx.index.model().permission_names.len() <= m1.permission_names.len() + (k - dlo),
                    m1.permission_names.len() + (dhi - dlo) < u32::MAX,
                decreases dhi - k,
            {
                let ghost mk = ctx.index.model();
                let ghost repk = ctx.reporter.reported();
                let d = *ast.defs().at(DefMemberId::new(k as u32));
                declare_def(ctx, id, d);
                proof {
                    let step = def_step(src, mk, i as nat, d);
                    let rest = declare_defs(defs, src, ctx.index.model(), i as nat, k + 1, dhi as int);
                    assert(declare_defs(defs, src, mk, i as nat, k as int, dhi as int) == (rest.0, step.1 + rest.1));
                    assert(views(repk) + step.1 + rest.1 =~= views(repk) + (step.1 + rest.1));
                }
                k = k + 1;
            }
            proof {
                assert(views(ctx.reporter.reported()) =~= views(rep0) + (total_lets.1 + total_defs.1));
            }
        },
    }
}

/// The declaration pass: declares every type of the schema and its members, in source
/// order, and reports duplicate types, relations and permissions and names used for
/// both a relation and a permission of one type.
pub fn declare_schema<'src, R: Reporter>(ctx: &mut Context<'src, R>, ast: &Ast)
    requires
        old(ctx).ready(),
        old(ctx).model() == empty_model(),
        ast.wf(),
        ast.ordered(),
        ast.fits(old(ctx).src()),
        ast.type_nodes().len() < u32::MAX,
        ast.let_nodes().len() < u32::MAX,
        ast.def_nodes().len() < u32::MAX,
    ensures
        final(ctx).ready(),
        final(ctx).file_of() == old(ctx).file_of(),
        final(ctx).model() == declare_pass(*ast, old(ctx).src()).0,
        views(final(ctx).diags()) == views(old(ctx).diags()) + declare_pass(*ast, old(ctx).src()).1,
{
    let ghost src = ctx.src();
    let ghost types = ast.type_nodes();
    let ghost lets = ast.let_nodes();
    let ghost defs = ast.def_nodes();
    let ghost rep0 = ctx.reporter.reported();
    let ghost total = declare_pass(*ast, src);
    let n = ast.types().len();
    let mut i: usize = 0;
    while i < n
        invariant
            i <= n == types.len() < u32::MAX,
            types == ast.type_nodes(),
            lets == ast.let_nodes(),
            defs == ast.def_nodes(),
            ast.wf(),
            ast.ordered(),
            ast.fits(src),
            lets.len() < u32::MAX,
            defs.len() < u32::MAX,
            src == ctx.src(),
            ctx.index.wf(),
            ctx.file == old(ctx).file,
            total == declare_types(types, lets, defs, src, empty_model(), 0),
            declare_types(types, lets, defs, src, ctx.index.model(), i as int).0 == total.0,
            views(ctx.reporter.reported()) + declare_types(types, lets, defs, src, ctx.index.model(), i as int).1
                == views(rep0) + total.1,
            ctx.index.model().types.len() <= i,
            ctx.index.model().relation_names.len() <= let_visits(types, i as int),
            ctx.index.model().permission_names.len() <= def_visits(types, i as int),
        decreases n - i,
    {
        let ghost mi = ctx.index.model();
        let ghost repi = ctx.reporter.reported();
        proof {
            lemma_visits(types, i + 1);
            assert(types[i as int].lets.hi() <= lets.len() && types[i as int].defs.hi() <= defs.len());
        }
        declare_one_type(ctx, ast, i);
        proof {
            let step = declare_type_def(types, lets, defs, src, mi, i as int);
            let rest = declare_types(types, lets, defs, src, ctx.index.model(), i + 1);
            assert(declare_types(types, lets, defs, src, mi, i as int) == (rest.0, step.1 + rest.1));
            assert(views(repi) + step.1 + rest.1 =~= views(repi) + (step.1 + rest.1));
        }
        i = i + 1;
    }
}

} // verus!
