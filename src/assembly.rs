use vstd::prelude::*;
use crate::sig_map::{EntriesModel, SigMap, sorted_insert, lemma_sorted_insert_commute};
use crate::signature::{
    EventDecl, FunctionDecl, TranslationError, ErrorModel, errors_view, from_event_decl,
    from_function_decl, event_sig, function_sig, all_translate, field_types, param_types,
};

verus! {

/// The events and callable functions of a module, as ABI signatures keyed by declared name.
#[derive(Debug)]
pub struct ABIMoveSignature {
    /// Event struct name to event signature.
    pub event_map: SigMap,
    /// Function name to function signature.
    pub func_map: SigMap,
}

impl ABIMoveSignature {
    pub open spec fn wf(&self) -> bool {
        self.event_map.wf() && self.func_map.wf()
    }
}

/// What the compiler knows of a module's ABI surface: the structs registered as events and
/// the functions registered as callable, in whatever order the compiler holds them.
#[derive(Debug)]
pub struct CompilationContext {
    pub events: Vec<EventDecl>,
    pub functions: Vec<FunctionDecl>,
}

pub open spec fn event_ok(e: EventDecl) -> bool {
    all_translate(field_types(e.fields@))
}

pub open spec fn function_ok(f: FunctionDecl) -> bool {
    all_translate(param_types(f.params@)) && all_translate(param_types(f.returns@))
}

/// The event table built from `evs`, in registration order; events that do not translate
/// are left out.
pub open spec fn event_table(evs: Seq<EventDecl>) -> EntriesModel
    decreases evs.len(),
{
    if evs.len() == 0 {
        Seq::empty()
    } else {
        let e = evs.last();
        if event_ok(e) {
            sorted_insert(event_table(evs.drop_last()), e.name@, event_sig(e))
        } else {
            event_table(evs.drop_last())
        }
    }
}

pub open spec fn function_table(fs: Seq<FunctionDecl>) -> EntriesModel
    decreases fs.len(),
{
    if fs.len() == 0 {
        Seq::empty()
    } else {
        let f = fs.last();
        if function_ok(f) {
            sorted_insert(function_table(fs.drop_last()), f.name@, function_sig(f))
        } else {
            function_table(fs.drop_last())
        }
    }
}

/// The names of the events that do not translate, in registration order.
pub open spec fn failed_events(evs: Seq<EventDecl>) -> Seq<Seq<char>>
    decreases evs.len(),
{
    if evs.len() == 0 {
        Seq::empty()
    } else if event_ok(evs.last()) {
        failed_events(evs.drop_last())
    } else {
        failed_events(evs.drop_last()).push(evs.last().name@)
    }
}

pub open spec fn failed_functions(fs: Seq<FunctionDecl>) -> Seq<Seq<char>>
    decreases fs.len(),
{
    if fs.len() == 0 {
        Seq::empty()
    } else if function_ok(fs.last()) {
        failed_functions(fs.drop_last())
    } else {
        failed_functions(fs.drop_last()).push(fs.last().name@)
    }
}

pub open spec fn failed_items(ctx: CompilationContext) -> Seq<Seq<char>> {
    failed_events(ctx.events@) + failed_functions(ctx.functions@)
}

pub open spec fn error_items(es: Seq<ErrorModel>) -> Seq<Seq<char>> {
    es.map_values(|e: ErrorModel| e.item)
}

/// `s` with the items at `i` and `i + 1` exchanged.
pub open spec fn swap_adjacent<T>(s: Seq<T>, i: int) -> Seq<T> {
    s.update(i, s[i + 1]).update(i + 1, s[i])
}

proof fn lemma_event_table_same_tail(x: Seq<EventDecl>, y: Seq<EventDecl>, n: int)
    requires
        0 <= n <= x.len(),
        x.len() == y.len(),
        event_table(x.take(n)) == event_table(y.take(n)),
        forall|j: int| n <= j < x.len() ==> x[j] == y[j],
    ensures
        event_table(x) == event_table(y),
    decreases x.len() - n,
{
    if n < x.len() {
        assert(x.take(n + 1).drop_last() =~= x.take(n));
        assert(y.take(n + 1).drop_last() =~= y.take(n));
        assert(x.take(n + 1).last() == y.take(n + 1).last());
        lemma_event_table_same_tail(x, y, n + 1);
    } else {
        assert(x.take(n) =~= x);
        assert(y.take(n) =~= y);
    }
}

/// The event table does not depend on the order in which events were registered: exchanging
/// two neighbouring events with different names leaves it as it was (and any reordering is a
/// series of such exchanges).
pub proof fn lemma_event_order_irrelevant(evs: Seq<EventDecl>, i: int)
    requires
        0 <= i,
        i + 1 < evs.len(),
        evs[i].name@ != evs[i + 1].name@,
    ensures
        event_table(swap_adjacent(evs, i)) == event_table(evs),
{
    let y = swap_adjacent(evs, i);
    let a = evs[i];
    let b = evs[i + 1];
    assert(evs.take(i) =~= y.take(i));
    assert(evs.take(i + 2).drop_last() =~= evs.take(i + 1));
    assert(evs.take(i + 1).drop_last() =~= evs.take(i));
    assert(y.take(i + 2).drop_last() =~= y.take(i + 1));
    assert(y.take(i + 1).drop_last() =~= y.take(i));
    assert(evs.take(i + 2).last() == b && evs.take(i + 1).last() == a);
    assert(y.take(i + 2).last() == a && y.take(i + 1).last() == b);
    if event_ok(a) && event_ok(b) {
        lemma_sorted_insert_commute(event_table(evs.take(i)), a.name@, event_sig(a), b.name@, event_sig(b));
    }
    let t0 = event_table(evs.take(i));
    let ta = if event_ok(a) { sorted_insert(t0, a.name@, event_sig(a)) } else { t0 };
    let tb = if event_ok(b) { sorted_insert(t0, b.name@, event_sig(b)) } else { t0 };
    assert(event_table(evs.take(i + 1)) == ta);
    assert(event_table(y.take(i + 1)) == tb);
    assert(event_table(evs.take(i + 2)) == (if event_ok(b) { sorted_insert(ta, b.name@, event_sig(b)) } else { ta }));
    assert(event_table(y.take(i + 2)) == (if event_ok(a) { sorted_insert(tb, a.name@, event_sig(a)) } else { tb }));
    lemma_event_table_same_tail(y, evs, i + 2);
}

proof fn lemma_function_table_same_tail(x: Seq<FunctionDecl>, y: Seq<FunctionDecl>, n: int)
    requires
        0 <= n <= x.len(),
        x.len() == y.len(),
        function_table(x.take(n)) == function_table(y.take(n)),
        forall|j: int| n <= j < x.len() ==> x[j] == y[j],
    ensures
        function_table(x) == function_table(y),
    decreases x.len() - n,
{
    if n < x.len() {
        assert(x.take(n + 1).drop_last() =~= x.take(n));
        assert(y.take(n + 1).drop_last() =~= y.take(n));
        assert(x.take(n + 1).last() == y.take(n + 1).last());
        lemma_function_table_same_tail(x, y, n + 1);
    } else {
        assert(x.take(n) =~= x);
        assert(y.take(n) =~= y);
    }
}

/// The function table does not depend on the order in which functions were registered:
/// exchanging two neighbouring functions with different names leaves it as it was.
pub proof fn lemma_function_order_irrelevant(fs: Seq<FunctionDecl>, i: int)
    requires
        0 <= i,
        i + 1 < fs.len(),
        fs[i].name@ != fs[i + 1].name@,
    ensures
        function_table(swap_adjacent(fs, i)) == function_table(fs),
{
    let y = swap_adjacent(fs, i);
    let a = fs[i];
    let b = fs[i + 1];
    assert(fs.take(i) =~= y.take(i));
    assert(fs.take(i + 2).drop_last() =~= fs.take(i + 1));
    assert(fs.take(i + 1).drop_last() =~= fs.take(i));
    assert(y.take(i + 2).drop_last() =~= y.take(i + 1));
    assert(y.take(i + 1).drop_last() =~= y.take(i));
    assert(fs.take(i + 2).last() == b && fs.take(i + 1).last() == a);
    assert(y.take(i + 2).last() == a && y.take(i + 1).last() == b);
    if function_ok(a) && function_ok(b) {
        lemma_sorted_insert_commute(
            function_table(fs.take(i)),
            a.name@,
            function_sig(a),
            b.name@,
            function_sig(b),
        );
    }
    let t0 = function_table(fs.take(i));
    let ta = if function_ok(a) { sorted_insert(t0, a.name@, function_sig(a)) } else { t0 };
    let tb = if function_ok(b) { sorted_insert(t0, b.name@, function_sig(b)) } else { t0 };
    assert(function_table(fs.take(i + 1)) == ta);
    assert(function_table(y.take(i + 1)) == tb);
    assert(function_table(fs.take(i + 2)) == (if function_ok(b) { sorted_insert(ta, b.name@, function_sig(b)) } else { ta }));
    assert(function_table(y.take(i + 2)) == (if function_ok(a) { sorted_insert(tb, a.name@, function_sig(a)) } else { tb }));
    lemma_function_table_same_tail(y, fs, i + 2);
}

/// Builds the aggregate signature table of a module. Each map is in ascending key order, so
/// the result does not depend on the order in which the compiler registered the items, only
/// on which items there are (where two items share a name, the later one is kept). Every
/// declaration that cannot be translated is reported, events first, in registration order.
pub fn generate_abi_move_signature(ctx: &CompilationContext) -> (r: Result<
    ABIMoveSignature,
    Vec<TranslationError>,
>)
    ensures
        match r {
            Ok(t) => {
                &&& failed_items(*ctx).len() == 0
                &&& t.wf()
                &&& t.event_map@ == event_table(ctx.events@)
                &&& t.func_map@ == function_table(ctx.functions@)
            },
            Err(es) => {
                &&& failed_items(*ctx).len() > 0
                &&& error_items(errors_view(es@)) == failed_items(*ctx)
            },
        },
{
    let mut errors: Vec<TranslationError> = Vec::new();
    let mut event_map = SigMap::new();
    let mut i: usize = 0;
    while i < ctx.events.len()
        invariant
            i <= ctx.events.len(),
            event_map.wf(),
            event_map@ == event_table(ctx.events@.take(i as int)),
            error_items(errors_view(errors@)) == failed_events(ctx.events@.take(i as int)),
        decreases ctx.events.len() - i,
    {
        let e = &ctx.events[i];
        let ghost pre = ctx.events@.take(i + 1);
        assert(pre.drop_last() =~= ctx.events@.take(i as int));
        let ghost before = errors@;
        match from_event_decl(e) {
            Ok(sig) => {
                event_map.insert(e.name.clone(), sig);
            },
            Err(err) => {
                errors.push(err);
                assert(error_items(errors_view(errors@)) =~= error_items(errors_view(before)).push(
                    e.name@,
                ));
            },
        }
        i = i + 1;
    }
    assert(ctx.events@.take(ctx.events.len() as int) =~= ctx.events@);
    let mut func_map = SigMap::new();
    let mut j: usize = 0;
    while j < ctx.functions.len()
        invariant
            j <= ctx.functions.len(),
            func_map.wf(),
            func_map@ == function_table(ctx.functions@.take(j as int)),
            error_items(errors_view(errors@)) == failed_events(ctx.events@) + failed_functions(
                ctx.functions@.take(j as int),
            ),
        decreases ctx.functions.len() - j,
    {
        let f = &ctx.functions[j];
        let ghost pre = ctx.functions@.take(j + 1);
        assert(pre.drop_last() =~= ctx.functions@.take(j as int));
        let ghost before = errors@;
        match from_function_decl(f) {
            Ok(sig) => {
                func_map.insert(f.name.clone(), sig);
            },
            Err(err) => {
                errors.push(err);
                assert(error_items(errors_view(errors@)) =~= error_items(errors_view(before)).push(
                    f.name@,
                ));
                assert(failed_functions(pre) == failed_functions(
                    ctx.functions@.take(j as int),
                ).push(f.name@));
                assert(failed_events(ctx.events@) + failed_functions(pre) =~= (failed_events(
                    ctx.events@,
                ) + failed_functions(ctx.functions@.take(j as int))).push(f.name@));
            },
        }
        j = j + 1;
    }
    assert(ctx.functions@.take(ctx.functions.len() as int) =~= ctx.functions@);
    if errors.len() == 0 {
        Ok(ABIMoveSignature { event_map, func_map })
    } else {
        Err(errors)
    }
}

} // verus!
