//! The reactive systems: routing release edges and value-change events.
//!
//! Each function here is the decision core of one per-frame reaction:
//! the host loop reads its inputs, calls the function, and performs the
//! returned effects. A mouse-release edge consumes raised fire-once
//! flags and asks for the first bound function of each such entity to
//! run; a value-change event rewrites the linked label's text.

use vstd::prelude::*;

use crate::fire::{fires, note_value_changed, spec_notified, spec_released, MouseUpBinding,
    WantsFire};
use crate::format::{format_two_decimals, spec_two_decimals};
use crate::registry::{NamedRegistry, RegistryError};
use crate::table::Table;

verus! {

/// A value-change event: the slider entity and its new value counted in
/// hundredths.
#[derive(Clone, Copy, PartialEq, Eq, Structural, Debug)]
pub struct SliderChangedEvent {
    /// The slider entity the event speaks of.
    pub slider: u64,
    /// The new value, in hundredths.
    pub value_hundredths: i64,
}

/// A committed callback: run the named bound function for the entity.
pub struct FireRequest {
    /// The entity whose release fired.
    pub entity: u64,
    /// The name of the bound function to run.
    pub func: String,
}

/// The five user functions the harness registers by name.
#[derive(Clone, Copy, PartialEq, Eq, Structural, Debug)]
pub enum UserFn {
    /// Raises the fire-once flag of a slider and logs its value.
    NotifySliderChange,
    /// Logs the slider value on a committed release.
    NotifySliderMouseUp,
    /// Logs the text of a changed input field.
    NotifyInputChange,
    /// Logs the value of a changed select field.
    NotifySelectChange,
    /// Logs a button press.
    OnButtonPress,
}

/// Track an entity whose release-bound functions were just attached:
/// give it its fire-once flag, initially down.
pub fn add_wants_fire_to_slider_mouse_up(
    table: &mut Table<MouseUpBinding>,
    entity: u64,
    funcs: Vec<String>,
)
    requires
        old(table).wf(),
    ensures
        final(table).wf(),
        final(table)@ == old(table)@.insert(
            entity,
            (MouseUpBinding { funcs: funcs, wants_fire: WantsFire(false) }),
        ),
{
    table.insert(entity, MouseUpBinding { funcs, wants_fire: WantsFire(false) });
}

/// The table after a value-change notification for `e`: its flag goes
/// up if it is tracked; an untracked entity is silently skipped.
pub open spec fn spec_value_changed(m: Map<u64, MouseUpBinding>, e: u64) -> Map<
    u64,
    MouseUpBinding,
> {
    if m.contains_key(e) {
        m.insert(e, spec_notified(m[e]))
    } else {
        m
    }
}

/// Record a value change of a tracked slider: raise its fire-once flag.
/// A slider that is not tracked is silently skipped.
pub fn notify_slider_change(table: &mut Table<MouseUpBinding>, entity: u64)
    requires
        old(table).wf(),
    ensures
        final(table).wf(),
        final(table)@ == spec_value_changed(old(table)@, entity),
{
    match table.take(entity) {
        Some(mut b) => {
            note_value_changed(&mut b.wants_fire);
            table.insert(entity, b);
            proof {
                assert(table@ =~= spec_value_changed(old(table)@, entity));
            }
        },
        None => {},
    }
}

/// The table after a release edge: every raised flag consumed by a
/// bound function goes down.
pub open spec fn spec_release_map(m: Map<u64, MouseUpBinding>) -> Map<u64, MouseUpBinding> {
    Map::new(|k: u64| m.contains_key(k), |k: u64| spec_released(m[k]))
}

/// The requests a release edge commits, visiting `keys` in order: one
/// request per visited entity whose flag is up and which has a bound
/// function, naming its first bound function.
pub open spec fn spec_fire_requests(m: Map<u64, MouseUpBinding>, keys: Seq<u64>) -> Seq<
    FireRequest,
>
    decreases keys.len(),
{
    if keys.len() == 0 {
        Seq::empty()
    } else {
        let rest = spec_fire_requests(m, keys.drop_last());
        let k = keys.last();
        if m.contains_key(k) && fires(m[k]) {
            rest + seq![FireRequest { entity: k, func: m[k].funcs[0] }]
        } else {
            rest
        }
    }
}

/// What a release edge commits: every request names a visited entity
/// whose flag was up, every such entity gets a request, and no entity
/// gets two.
pub proof fn lemma_fire_requests(m: Map<u64, MouseUpBinding>, keys: Seq<u64>)
    requires
        keys.no_duplicates(),
    ensures
        forall|i: int| 0 <= i < spec_fire_requests(m, keys).len() ==> {
            let req = #[trigger] spec_fire_requests(m, keys)[i];
            &&& keys.contains(req.entity)
            &&& m.contains_key(req.entity)
            &&& fires(m[req.entity])
            &&& req.func == m[req.entity].funcs[0]
        },
        forall|k: u64|
            #[trigger] keys.contains(k) && m.contains_key(k) && fires(m[k]) ==> exists|i: int|
                0 <= i < spec_fire_requests(m, keys).len() && spec_fire_requests(m, keys)[i].entity
                    == k,
        forall|i: int, j: int|
            0 <= i < j < spec_fire_requests(m, keys).len() ==> spec_fire_requests(m, keys)[i].entity
                != spec_fire_requests(m, keys)[j].entity,
    decreases keys.len(),
{
    if keys.len() > 0 {
        let prefix = keys.drop_last();
        let k = keys.last();
        assert(prefix.no_duplicates());
        lemma_fire_requests(m, prefix);
        let rest = spec_fire_requests(m, prefix);
        let r = spec_fire_requests(m, keys);
        assert forall|i: int| 0 <= i < prefix.len() implies keys.contains(#[trigger] prefix[i]) by {
            assert(keys[i] == prefix[i]);
        }
        assert(!prefix.contains(k));
        if m.contains_key(k) && fires(m[k]) {
            assert(r == rest + seq![FireRequest { entity: k, func: m[k].funcs[0] }]);
            assert(r[r.len() - 1].entity == k);
        } else {
            assert(r == rest);
        }
        assert forall|k2: u64|
            #[trigger] keys.contains(k2) && m.contains_key(k2) && fires(m[k2]) implies exists|
            i: int,
        | 0 <= i < r.len() && r[i].entity == k2 by {
            if k2 == k {
                assert(r[r.len() - 1].entity == k2);
            } else {
                let j = choose|j: int| 0 <= j < keys.len() && keys[j] == k2;
                assert(j < prefix.len());
                assert(prefix[j] == k2);
                assert(prefix.contains(k2));
                let i = choose|i: int| 0 <= i < rest.len() && rest[i].entity == k2;
                assert(r[i].entity == k2);
            }
        }
    }
}

/// Process a release edge: consume every raised flag that has a bound
/// function and return the committed requests, one per fired entity,
/// each naming the entity's first bound function. Without a release
/// edge nothing changes and nothing is committed.
pub fn handle_mouse_up(released: bool, table: &mut Table<MouseUpBinding>) -> (reqs: Vec<
    FireRequest,
>)
    requires
        old(table).wf(),
    ensures
        final(table).wf(),
        !released ==> *final(table) == *old(table) && reqs@ == Seq::<FireRequest>::empty(),
        released ==> final(table)@ == spec_release_map(old(table)@),
        released ==> reqs@ == spec_fire_requests(old(table)@, old(table).key_seq()),
{
    let mut reqs: Vec<FireRequest> = Vec::new();
    if !released {
        return reqs;
    }
    let ghost m0 = table@;
    let ghost ks0 = table.key_seq();
    proof {
        table.lemma_key_seq();
    }
    let ks = table.keys();
    let n = ks.len();
    let mut i: usize = 0;
    while i < n
        invariant
            table.wf(),
            n == ks@.len(),
            0 <= i <= n,
            ks@ == ks0,
            ks0.no_duplicates(),
            forall|k: u64| ks0.contains(k) == m0.contains_key(k),
            forall|k: u64| #[trigger] table@.contains_key(k) == m0.contains_key(k),
            forall|j: int|
                0 <= j < i ==> table@[#[trigger] ks0[j]] == spec_released(m0[ks0[j]]),
            forall|j: int| i <= j < n ==> table@[#[trigger] ks0[j]] == m0[ks0[j]],
            reqs@ == spec_fire_requests(m0, ks0.take(i as int)),
        decreases n - i,
    {
        let k = ks[i];
        proof {
            assert(0 <= (i as int) && (i as int) < ks0.len() && ks0[i as int] == k);
            assert(ks0.contains(k));
        }
        let ghost pre = table@;
        match table.take(k) {
            Some(mut b) => {
                proof {
                    assert(b == m0[k]);
                }
                if b.funcs.len() > 0 && b.wants_fire.0 {
                    b.wants_fire.0 = false;
                    reqs.push(FireRequest { entity: k, func: b.funcs[0].clone() });
                }
                proof {
                    assert(b == spec_released(m0[k]));
                }
                table.insert(k, b);
                proof {
                    assert(table@ =~= pre.insert(k, spec_released(m0[k])));
                    let t1 = ks0.take(i as int + 1);
                    assert(t1.drop_last() =~= ks0.take(i as int));
                    assert(t1.last() == k);
                    assert(reqs@ =~= spec_fire_requests(m0, t1));
                }
            },
            None => {
                proof {
                    assert(false);
                }
            },
        }
        i = i + 1;
    }
    proof {
        assert(ks0.take(n as int) =~= ks0);
        assert forall|k: u64| #[trigger] table@.contains_key(k) implies table@[k]
            == spec_release_map(m0)[k] by {
            assert(m0.contains_key(k));
            assert(ks0.contains(k));
            let j = choose|j: int| 0 <= j < ks0.len() && ks0[j] == k;
            assert(table@[ks0[j]] == spec_released(m0[ks0[j]]));
        }
        assert(table@ =~= spec_release_map(m0));
    }
    reqs
}

/// The label views after one value-change event: if the slider has a
/// linked target and the target has a text entry, that text becomes the
/// value with two decimal places; otherwise nothing changes.
pub open spec fn spec_label_sync_event(
    tv: Map<u64, Seq<char>>,
    targets: Map<u64, u64>,
    ev: SliderChangedEvent,
) -> Map<u64, Seq<char>> {
    if targets.contains_key(ev.slider) && tv.contains_key(targets[ev.slider]) {
        tv.insert(targets[ev.slider], spec_two_decimals(ev.value_hundredths as int))
    } else {
        tv
    }
}

/// The label views after a batch of value-change events, in order.
pub open spec fn spec_label_sync(
    tv: Map<u64, Seq<char>>,
    targets: Map<u64, u64>,
    evs: Seq<SliderChangedEvent>,
) -> Map<u64, Seq<char>>
    decreases evs.len(),
{
    if evs.len() == 0 {
        tv
    } else {
        spec_label_sync_event(spec_label_sync(tv, targets, evs.drop_last()), targets, evs.last())
    }
}

/// The texts of a label table, read as character sequences.
pub open spec fn views_of(m: Map<u64, String>) -> Map<u64, Seq<char>> {
    Map::new(|k: u64| m.contains_key(k), |k: u64| m[k]@)
}

/// A value-change event whose slider has no linked target changes no
/// label.
pub proof fn lemma_unlinked_event_keeps_labels(
    tv: Map<u64, Seq<char>>,
    targets: Map<u64, u64>,
    ev: SliderChangedEvent,
)
    requires
        !targets.contains_key(ev.slider),
    ensures
        spec_label_sync_event(tv, targets, ev) == tv,
{
}

/// Copy each event's value, with two decimal places, into the text of
/// the slider's linked target label. An event whose slider has no
/// linked target, or whose target has no text entry, is silently
/// skipped.
pub fn update_slider_target_text(
    events: &Vec<SliderChangedEvent>,
    targets: &Table<u64>,
    texts: &mut Table<String>,
)
    requires
        targets.wf(),
        old(texts).wf(),
    ensures
        final(texts).wf(),
        views_of(final(texts)@) == spec_label_sync(views_of(old(texts)@), targets@, events@),
        forall|k: u64| #[trigger]
            final(texts)@.contains_key(k) == old(texts)@.contains_key(k),
{
    let ghost tv0 = views_of(texts@);
    let n = events.len();
    let mut i: usize = 0;
    while i < n
        invariant
            texts.wf(),
            targets.wf(),
            n == events@.len(),
            0 <= i <= n,
            tv0 == views_of(old(texts)@),
            views_of(texts@) == spec_label_sync(tv0, targets@, events@.take(i as int)),
            forall|k: u64| #[trigger]
                texts@.contains_key(k) == old(texts)@.contains_key(k),
        decreases n - i,
    {
        let ev = &events[i];
        let ghost pre = texts@;
        proof {
            let t1 = events@.take(i as int + 1);
            assert(t1.drop_last() =~= events@.take(i as int));
            assert(t1.last() == events@[i as int]);
        }
        match targets.get(ev.slider) {
            Some(t) => {
                let t = *t;
                match texts.take(t) {
                    Some(_old_text) => {
                        let s = format_two_decimals(ev.value_hundredths);
                        texts.insert(t, s);
                        proof {
                            assert(views_of(texts@) =~= views_of(pre).insert(
                                t,
                                spec_two_decimals(ev.value_hundredths as int),
                            ));
                        }
                    },
                    None => {},
                }
            },
            None => {},
        }
        i = i + 1;
    }
    proof {
        assert(events@.take(n as int) =~= events@);
    }
}

/// Register the slider markup template under its name. The handle of
/// the loaded template asset stands behind `slider_template`.
pub fn register_widgets(comps: &mut NamedRegistry<u64>, slider_template: u64) -> (r: Result<
    (),
    RegistryError,
>)
    requires
        old(comps).wf(),
    ensures
        final(comps).wf(),
        r is Ok <==> !old(comps)@.contains_key("slider"@),
        r is Ok ==> final(comps)@ == old(comps)@.insert("slider"@, slider_template),
        r is Err ==> *final(comps) == *old(comps),
{
    comps.register("slider".to_owned(), slider_template)
}

/// Whether any of the five user-function names is already bound.
pub open spec fn spec_user_fn_name_bound(m: Map<Seq<char>, UserFn>) -> bool {
    ||| m.contains_key("notify_slider_change"@)
    ||| m.contains_key("notify_slider_mouse_up"@)
    ||| m.contains_key("notify_input_change"@)
    ||| m.contains_key("notify_select_change"@)
    ||| m.contains_key("on_button_press"@)
}

/// The registry with all five user functions bound.
pub open spec fn spec_user_fns_registered(m: Map<Seq<char>, UserFn>) -> Map<Seq<char>, UserFn> {
    m.insert("notify_slider_change"@, UserFn::NotifySliderChange).insert(
        "notify_slider_mouse_up"@,
        UserFn::NotifySliderMouseUp,
    ).insert("notify_input_change"@, UserFn::NotifyInputChange).insert(
        "notify_select_change"@,
        UserFn::NotifySelectChange,
    ).insert("on_button_press"@, UserFn::OnButtonPress)
}

/// Register the five user functions under their markup names. If any
/// of the names is already bound, nothing is registered.
pub fn register_user_functions(funcs: &mut NamedRegistry<UserFn>) -> (r: Result<
    (),
    RegistryError,
>)
    requires
        old(funcs).wf(),
    ensures
        final(funcs).wf(),
        r is Ok <==> !spec_user_fn_name_bound(old(funcs)@),
        r is Ok ==> final(funcs)@ == spec_user_fns_registered(old(funcs)@),
        r is Err ==> *final(funcs) == *old(funcs) && r == Result::<(), RegistryError>::Err(
            RegistryError::DuplicateName,
        ),
{
    let n1 = "notify_slider_change".to_owned();
    let n2 = "notify_slider_mouse_up".to_owned();
    let n3 = "notify_input_change".to_owned();
    let n4 = "notify_select_change".to_owned();
    let n5 = "on_button_press".to_owned();
    if funcs.contains(&n1) || funcs.contains(&n2) || funcs.contains(&n3) || funcs.contains(&n4)
        || funcs.contains(&n5) {
        return Err(RegistryError::DuplicateName);
    }
    proof {
        reveal_strlit("notify_slider_change");
        reveal_strlit("notify_slider_mouse_up");
        reveal_strlit("notify_input_change");
        reveal_strlit("notify_select_change");
        reveal_strlit("on_button_press");
        assert("notify_slider_change"@.len() == 20);
        assert("notify_slider_mouse_up"@.len() == 22);
        assert("notify_input_change"@.len() == 19);
        assert("notify_select_change"@.len() == 20);
        assert("on_button_press"@.len() == 15);
        assert("notify_slider_change"@[8] == 'l');
        assert("notify_select_change"@[8] == 'e');
        assert(n1@ != n2@ && n1@ != n3@ && n1@ != n4@ && n1@ != n5@);
        assert(n2@ != n3@ && n2@ != n4@ && n2@ != n5@);
        assert(n3@ != n4@ && n3@ != n5@);
        assert(n4@ != n5@);
    }
    let r1 = funcs.register(n1, UserFn::NotifySliderChange);
    let r2 = funcs.register(n2, UserFn::NotifySliderMouseUp);
    let r3 = funcs.register(n3, UserFn::NotifyInputChange);
    let r4 = funcs.register(n4, UserFn::NotifySelectChange);
    let r5 = funcs.register(n5, UserFn::OnButtonPress);
    proof {
        assert(r1 is Ok && r2 is Ok && r3 is Ok && r4 is Ok && r5 is Ok);
        assert(final(funcs)@ =~= spec_user_fns_registered(old(funcs)@));
    }
    Ok(())
}

/// The table after `n` value-change notifications for `e` in a row.
pub open spec fn spec_value_changed_n(m: Map<u64, MouseUpBinding>, e: u64, n: nat) -> Map<
    u64,
    MouseUpBinding,
>
    decreases n,
{
    if n == 0 {
        m
    } else {
        spec_value_changed(spec_value_changed_n(m, e, (n - 1) as nat), e)
    }
}

/// Any number of value-change notifications for a tracked entity with a
/// bound function, followed by one release edge, fires for it — and the
/// release leaves it unable to fire again, so a second release without
/// an intervening change commits nothing for it.
pub proof fn lemma_value_changes_then_release(m: Map<u64, MouseUpBinding>, e: u64, n: nat)
    requires
        m.contains_key(e),
        m[e].funcs.len() > 0,
        n >= 1,
    ensures
        spec_value_changed_n(m, e, n).contains_key(e),
        fires(spec_value_changed_n(m, e, n)[e]),
        !fires(spec_release_map(spec_value_changed_n(m, e, n))[e]),
    decreases n,
{
    let m1 = spec_value_changed_n(m, e, n);
    if n == 1 {
        assert(spec_value_changed_n(m, e, 0) == m);
        assert(m1 == spec_value_changed(m, e));
    } else {
        lemma_value_changes_then_release(m, e, (n - 1) as nat);
        assert(m1 == spec_value_changed(spec_value_changed_n(m, e, (n - 1) as nat), e));
    }
}

} // verus!
