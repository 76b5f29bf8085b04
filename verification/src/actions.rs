//! Action payloads parsed from model output, the pending-action queue,
//! and the name-keyed handler registry with its dispatch rule.
use vstd::prelude::*;

use crate::json::Jv;
use crate::json::JsonValue;
use crate::json::jv_members_view;
use crate::json::jv_view;
use crate::json::lemma_jv_members_view;

verus! {

broadcast use vstd::std_specs::vec::group_vec_axioms;

/// Model of an [`ActionPayload`].
#[verifier::ext_equal]
pub ghost struct ActionPayloadView {
    pub name: Seq<char>,
    pub params: Jv,
}

/// A named, JSON-parameterised instruction extracted from a model
/// response.
#[derive(Debug, PartialEq)]
pub struct ActionPayload {
    pub name: String,
    pub params: JsonValue,
}

impl View for ActionPayload {
    type V = ActionPayloadView;

    open spec fn view(&self) -> ActionPayloadView {
        ActionPayloadView { name: self.name@, params: self.params@ }
    }
}

/// First value under `key` among `members`, if any.
pub open spec fn sp_obj_lookup(members: Seq<(Seq<char>, Jv)>, key: Seq<char>) -> Option<Jv>
    decreases members.len(),
{
    if members.len() == 0 {
        None
    } else if members[0].0 == key {
        Some(members[0].1)
    } else {
        sp_obj_lookup(members.drop_first(), key)
    }
}

/// `members` with `key` bound to `v`: the first existing binding is
/// replaced in place, else the pair is appended.
pub open spec fn sp_obj_insert(members: Seq<(Seq<char>, Jv)>, key: Seq<char>, v: Jv) -> Seq<
    (Seq<char>, Jv),
>
    decreases members.len(),
{
    if members.len() == 0 {
        seq![(key, v)]
    } else if members[0].0 == key {
        seq![(key, v)] + members.drop_first()
    } else {
        seq![members[0]] + sp_obj_insert(members.drop_first(), key, v)
    }
}

/// When `key` first occurs at position `i`, inserting is updating there.
proof fn lemma_obj_insert_update(members: Seq<(Seq<char>, Jv)>, key: Seq<char>, v: Jv, i: int)
    requires
        0 <= i < members.len(),
        forall|k: int| 0 <= k < i ==> (#[trigger] members[k]).0 != key,
        members[i].0 == key,
    ensures
        sp_obj_insert(members, key, v) =~= members.update(i, (key, v)),
    decreases i,
{
    if i == 0 {
        assert(seq![(key, v)] + members.drop_first() =~= members.update(0, (key, v)));
    } else {
        assert(forall|k: int|
            0 <= k < i - 1 ==> (#[trigger] members.drop_first()[k]) == members[k + 1]);
        lemma_obj_insert_update(members.drop_first(), key, v, i - 1);
        assert(seq![members[0]] + members.drop_first().update(i - 1, (key, v)) =~= members.update(
            i,
            (key, v),
        ));
    }
}

/// When `key` occurs nowhere, inserting is appending.
proof fn lemma_obj_insert_append(members: Seq<(Seq<char>, Jv)>, key: Seq<char>, v: Jv)
    requires
        forall|k: int| 0 <= k < members.len() ==> (#[trigger] members[k]).0 != key,
    ensures
        sp_obj_insert(members, key, v) =~= members.push((key, v)),
    decreases members.len(),
{
    if members.len() == 0 {
        assert(sp_obj_insert(members, key, v) =~= members.push((key, v)));
    } else {
        assert(forall|k: int|
            0 <= k < members.drop_first().len() ==> (#[trigger] members.drop_first()[k])
                == members[k + 1]);
        lemma_obj_insert_append(members.drop_first(), key, v);
        assert(seq![members[0]] + members.drop_first().push((key, v)) =~= members.push((key, v)));
    }
}

/// When `key` first occurs at position `i`, the lookup finds that value.
proof fn lemma_obj_lookup_at(members: Seq<(Seq<char>, Jv)>, key: Seq<char>, i: int)
    requires
        0 <= i < members.len(),
        forall|k: int| 0 <= k < i ==> (#[trigger] members[k]).0 != key,
        members[i].0 == key,
    ensures
        sp_obj_lookup(members, key) == Some(members[i].1),
    decreases i,
{
    if i > 0 {
        assert(forall|k: int|
            0 <= k < i - 1 ==> (#[trigger] members.drop_first()[k]) == members[k + 1]);
        lemma_obj_lookup_at(members.drop_first(), key, i - 1);
    }
}

/// When `key` occurs nowhere, the lookup finds nothing.
proof fn lemma_obj_lookup_none(members: Seq<(Seq<char>, Jv)>, key: Seq<char>)
    requires
        forall|k: int| 0 <= k < members.len() ==> (#[trigger] members[k]).0 != key,
    ensures
        sp_obj_lookup(members, key) is None,
    decreases members.len(),
{
    if members.len() > 0 {
        assert(forall|k: int|
            0 <= k < members.drop_first().len() ==> (#[trigger] members.drop_first()[k])
                == members[k + 1]);
        lemma_obj_lookup_none(members.drop_first(), key);
    }
}

/// Position of the first member bound to `key`, if any.
fn key_position(members: &Vec<(String, JsonValue)>, key: &String) -> (r: Option<usize>)
    ensures
        r matches Some(i) ==> i < members@.len() && members@[i as int].0@ == key@ && (forall|
            k: int,
        |
            0 <= k < i ==> (#[trigger] members@[k]).0@ != key@),
        r is None ==> forall|k: int|
            0 <= k < members@.len() ==> (#[trigger] members@[k]).0@ != key@,
{
    let n = members.len();
    let mut i: usize = 0;
    while i < n
        invariant
            i <= n,
            n == members@.len(),
            forall|k: int| 0 <= k < i ==> (#[trigger] members@[k]).0@ != key@,
        decreases n - i,
    {
        if members[i].0 == *key {
            return Some(i);
        }
        i = i + 1;
    }
    None
}

impl ActionPayload {
    /// A payload with the given name and no parameters yet.
    pub fn new(name: &str) -> (r: Self)
        ensures
            r@.name == name@,
            r@.params == Jv::Null,
    {
        ActionPayload { name: name.to_owned(), params: JsonValue::Null }
    }

    /// Attach one parameter, turning `params` into an object if it was
    /// not one yet; an existing binding of the same key is replaced.
    pub fn with_param(self, key: &str, value: JsonValue) -> (r: Self)
        ensures
            r@.name == self@.name,
            r@.params == (match self@.params {
                Jv::Obj(ms) => Jv::Obj(sp_obj_insert(ms, key@, value@)),
                _ => Jv::Obj(seq![(key@, value@)]),
            }),
    {
        let ActionPayload { name, params } = self;
        match params {
            JsonValue::Object(mut members) => {
                let ghost before = members@;
                let ghost ms = jv_members_view(members@, 0);
                proof {
                    lemma_jv_members_view(members@, 0);
                }
                let key_owned = key.to_owned();
                match key_position(&members, &key_owned) {
                    Some(i) => {
                        members.set(i, (key_owned, value));
                        proof {
                            assert forall|k: int| 0 <= k < i implies (#[trigger] ms[k]).0 != key@
                                by {
                                assert(ms[k] == (before[k].0@, jv_view(before[k].1)));
                            }
                            assert(ms[i as int] == (before[i as int].0@, jv_view(
                                before[i as int].1,
                            )));
                            lemma_obj_insert_update(ms, key@, value@, i as int);
                            lemma_jv_members_view(members@, 0);
                            assert forall|k: int|
                                0 <= k < members@.len() implies jv_members_view(members@, 0)[k]
                                == ms.update(i as int, (key@, value@))[k] by {
                                assert(jv_members_view(members@, 0)[k] == (
                                    members@[k].0@,
                                    jv_view(members@[k].1),
                                ));
                                if k != i {
                                    assert(members@[k] == before[k]);
                                    assert(ms[k] == (before[k].0@, jv_view(before[k].1)));
                                }
                            }
                            assert(jv_members_view(members@, 0) =~= ms.update(
                                i as int,
                                (key@, value@),
                            ));
                        }
                        ActionPayload { name, params: JsonValue::Object(members) }
                    },
                    None => {
                        members.push((key_owned, value));
                        proof {
                            assert forall|k: int| 0 <= k < ms.len() implies (#[trigger] ms[k]).0
                                != key@ by {
                                assert(ms[k] == (before[k].0@, jv_view(before[k].1)));
                            }
                            lemma_obj_insert_append(ms, key@, value@);
                            lemma_jv_members_view(members@, 0);
                            assert forall|k: int|
                                0 <= k < members@.len() implies jv_members_view(members@, 0)[k]
                                == ms.push((key@, value@))[k] by {
                                assert(jv_members_view(members@, 0)[k] == (
                                    members@[k].0@,
                                    jv_view(members@[k].1),
                                ));
                                if k < before.len() {
                                    assert(members@[k] == before[k]);
                                    assert(ms[k] == (before[k].0@, jv_view(before[k].1)));
                                }
                            }
                            assert(jv_members_view(members@, 0) =~= ms.push((key@, value@)));
                        }
                        ActionPayload { name, params: JsonValue::Object(members) }
                    },
                }
            },
            _ => {
                let mut members: Vec<(String, JsonValue)> = Vec::new();
                members.push((key.to_owned(), value));
                proof {
                    lemma_jv_members_view(members@, 0);
                    assert(jv_members_view(members@, 0) =~= seq![(key@, value@)]);
                }
                ActionPayload { name, params: JsonValue::Object(members) }
            },
        }
    }

    /// Read one parameter of an object-shaped `params`.
    pub fn get_raw(&self, key: &str) -> (r: Option<&JsonValue>)
        ensures
            (match self@.params {
                Jv::Obj(ms) => match sp_obj_lookup(ms, key@) {
                    Some(v) => r matches Some(x) && x@ == v,
                    None => r is None,
                },
                _ => r is None,
            }),
    {
        match &self.params {
            JsonValue::Object(members) => {
                let ghost ms = jv_members_view(members@, 0);
                proof {
                    lemma_jv_members_view(members@, 0);
                }
                let key_owned = key.to_owned();
                match key_position(members, &key_owned) {
                    Some(i) => {
                        proof {
                            assert forall|k: int| 0 <= k < i implies (#[trigger] ms[k]).0 != key@
                                by {
                                assert(ms[k] == (members@[k].0@, jv_view(members@[k].1)));
                            }
                            assert(ms[i as int] == (members@[i as int].0@, jv_view(
                                members@[i as int].1,
                            )));
                            lemma_obj_lookup_at(ms, key@, i as int);
                        }
                        Some(&members[i].1)
                    },
                    None => {
                        proof {
                            assert forall|k: int| 0 <= k < ms.len() implies (#[trigger] ms[k]).0
                                != key@ by {
                                assert(ms[k] == (members@[k].0@, jv_view(members@[k].1)));
                            }
                            lemma_obj_lookup_none(ms, key@);
                        }
                        None
                    },
                }
            },
            _ => None,
        }
    }
}

} // verus!

verus! {

impl Clone for ActionPayload {
    /// Cloning preserves the model of the payload.
    fn clone(&self) -> (r: Self)
        ensures
            r@ == self@,
    {
        ActionPayload { name: self.name.clone(), params: self.params.clone() }
    }
}

/// Model of an [`AiActionEvent`].
#[verifier::ext_equal]
pub ghost struct AiActionEventView {
    pub entity: u64,
    pub action: ActionPayloadView,
}

/// An action bound for a receiving entity, awaiting dispatch.
#[derive(Debug, PartialEq)]
pub struct AiActionEvent {
    pub entity: u64,
    pub action: ActionPayload,
}

impl View for AiActionEvent {
    type V = AiActionEventView;

    open spec fn view(&self) -> AiActionEventView {
        AiActionEventView { entity: self.entity, action: self.action@ }
    }
}

impl Clone for AiActionEvent {
    /// Cloning preserves the model of the event.
    fn clone(&self) -> (r: Self)
        ensures
            r@ == self@,
    {
        AiActionEvent { entity: self.entity, action: self.action.clone() }
    }
}

/// Actions parsed from responses, awaiting one dispatch pass.
#[derive(Debug)]
pub struct PendingAiActions {
    pub actions: Vec<AiActionEvent>,
}

impl View for PendingAiActions {
    type V = Seq<AiActionEventView>;

    open spec fn view(&self) -> Seq<AiActionEventView> {
        Seq::new(self.actions@.len(), |i: int| self.actions@[i]@)
    }
}

impl PendingAiActions {
    /// Fresh, empty queue.
    pub fn new() -> (r: Self)
        ensures
            r@ == Seq::<AiActionEventView>::empty(),
    {
        let r = PendingAiActions { actions: Vec::new() };
        proof {
            assert(r@ =~= Seq::<AiActionEventView>::empty());
        }
        r
    }
}

impl Default for PendingAiActions {
    /// The default queue is empty.
    fn default() -> (r: Self)
        ensures
            r@ == Seq::<AiActionEventView>::empty(),
    {
        PendingAiActions::new()
    }
}

/// The action a JSON value spells: an object with a string under
/// `name`, its parameters under `params` (absent meaning null).
pub open spec fn sp_value_to_action(v: Jv) -> Option<ActionPayloadView> {
    match v {
        Jv::Obj(ms) => match sp_obj_lookup(ms, "name"@) {
            Some(nv) => match nv {
                Jv::Str(nm) => Some(
                    ActionPayloadView {
                        name: nm,
                        params: match sp_obj_lookup(ms, "params"@) {
                            Some(p) => p,
                            None => Jv::Null,
                        },
                    },
                ),
                _ => None,
            },
            None => None,
        },
        _ => None,
    }
}

/// Read a freeform action out of a JSON value: an object carrying a
/// string `name`, and optionally `params`.
pub fn value_to_action(v: JsonValue) -> (r: Option<ActionPayload>)
    ensures
        r is None <==> sp_value_to_action(v@) is None,
        r matches Some(a) ==> sp_value_to_action(v@) == Some(a@),
{
    match v {
        JsonValue::Object(members) => {
            let ghost ms = jv_members_view(members@, 0);
            proof {
                lemma_jv_members_view(members@, 0);
            }
            let name_key = String::from_str("name");
            match key_position(&members, &name_key) {
                Some(i) => {
                    proof {
                        assert forall|k: int| 0 <= k < i implies (#[trigger] ms[k]).0 != "name"@
                            by {
                            assert(ms[k] == (members@[k].0@, jv_view(members@[k].1)));
                        }
                        assert(ms[i as int] == (members@[i as int].0@, jv_view(
                            members@[i as int].1,
                        )));
                        lemma_obj_lookup_at(ms, "name"@, i as int);
                    }
                    match &members[i].1 {
                        JsonValue::Str(nm) => {
                            let name = nm.clone();
                            let params_key = String::from_str("params");
                            let params = match key_position(&members, &params_key) {
                                Some(j) => {
                                    proof {
                                        assert forall|k: int|
                                            0 <= k < j implies (#[trigger] ms[k]).0 != "params"@
                                            by {
                                            assert(ms[k] == (members@[k].0@, jv_view(
                                                members@[k].1,
                                            )));
                                        }
                                        assert(ms[j as int] == (members@[j as int].0@, jv_view(
                                            members@[j as int].1,
                                        )));
                                        lemma_obj_lookup_at(ms, "params"@, j as int);
                                    }
                                    members[j].1.clone()
                                },
                                None => {
                                    proof {
                                        assert forall|k: int|
                                            0 <= k < ms.len() implies (#[trigger] ms[k]).0
                                            != "params"@ by {
                                            assert(ms[k] == (members@[k].0@, jv_view(
                                                members@[k].1,
                                            )));
                                        }
                                        lemma_obj_lookup_none(ms, "params"@);
                                    }
                                    JsonValue::Null
                                },
                            };
                            Some(ActionPayload { name, params })
                        },
                        _ => None,
                    }
                },
                None => {
                    proof {
                        assert forall|k: int| 0 <= k < ms.len() implies (#[trigger] ms[k]).0
                            != "name"@ by {
                            assert(ms[k] == (members@[k].0@, jv_view(members@[k].1)));
                        }
                        lemma_obj_lookup_none(ms, "name"@);
                    }
                    None
                },
            }
        },
        _ => None,
    }
}

/// First handler bound to `name` among `handlers`, if any.
pub open spec fn sp_reg_lookup(handlers: Seq<(Seq<char>, u64)>, name: Seq<char>) -> Option<u64>
    decreases handlers.len(),
{
    if handlers.len() == 0 {
        None
    } else if handlers[0].0 == name {
        Some(handlers[0].1)
    } else {
        sp_reg_lookup(handlers.drop_first(), name)
    }
}

/// `handlers` with `name` bound to `h`: an existing binding is replaced
/// in place, else the pair is appended.
pub open spec fn sp_reg_insert(handlers: Seq<(Seq<char>, u64)>, name: Seq<char>, h: u64) -> Seq<
    (Seq<char>, u64),
>
    decreases handlers.len(),
{
    if handlers.len() == 0 {
        seq![(name, h)]
    } else if handlers[0].0 == name {
        seq![(name, h)] + handlers.drop_first()
    } else {
        seq![handlers[0]] + sp_reg_insert(handlers.drop_first(), name, h)
    }
}

/// Registering replaces: after an insert the name maps to the new
/// handler, and every other name maps as before.
pub proof fn lemma_register_last_write_wins(
    handlers: Seq<(Seq<char>, u64)>,
    name: Seq<char>,
    h: u64,
    other: Seq<char>,
)
    ensures
        sp_reg_lookup(sp_reg_insert(handlers, name, h), name) == Some(h),
        other != name ==> sp_reg_lookup(sp_reg_insert(handlers, name, h), other) == sp_reg_lookup(
            handlers,
            other,
        ),
    decreases handlers.len(),
{
    if handlers.len() == 0 {
        let ins = sp_reg_insert(handlers, name, h);
        assert(ins =~= seq![(name, h)]);
        assert(ins[0] == (name, h));
        assert(ins.drop_first() =~= Seq::<(Seq<char>, u64)>::empty());
        assert(sp_reg_lookup(ins, name) == Some(h));
        if other != name {
            assert(sp_reg_lookup(ins.drop_first(), other) is None);
            assert(sp_reg_lookup(ins, other) is None);
            assert(sp_reg_lookup(handlers, other) is None);
        }
    } else if handlers[0].0 == name {
        let ins = sp_reg_insert(handlers, name, h);
        assert(ins =~= seq![(name, h)] + handlers.drop_first());
        assert(ins[0] == (name, h));
        assert(ins.drop_first() =~= handlers.drop_first());
        assert(sp_reg_lookup(ins, name) == Some(h));
        if other != name {
            assert(sp_reg_lookup(ins, other) == sp_reg_lookup(ins.drop_first(), other));
            assert(sp_reg_lookup(handlers, other) == sp_reg_lookup(handlers.drop_first(), other));
        }
    } else {
        lemma_register_last_write_wins(handlers.drop_first(), name, h, other);
        let ins = sp_reg_insert(handlers, name, h);
        assert(ins =~= seq![handlers[0]] + sp_reg_insert(handlers.drop_first(), name, h));
        assert(ins[0] == handlers[0]);
        assert(ins.drop_first() =~= sp_reg_insert(handlers.drop_first(), name, h));
        assert(sp_reg_lookup(ins, name) == sp_reg_lookup(
            sp_reg_insert(handlers.drop_first(), name, h),
            name,
        ));
        if other != name {
            if handlers[0].0 == other {
                assert(sp_reg_lookup(ins, other) == Some(handlers[0].1));
                assert(sp_reg_lookup(handlers, other) == Some(handlers[0].1));
            } else {
                assert(sp_reg_lookup(ins, other) == sp_reg_lookup(
                    sp_reg_insert(handlers.drop_first(), name, h),
                    other,
                ));
                assert(sp_reg_lookup(handlers, other) == sp_reg_lookup(
                    handlers.drop_first(),
                    other,
                ));
            }
        }
    }
}

/// Handlers keyed by action name; at most one handler per name, the
/// latest registration winning.
#[derive(Debug)]
pub struct AiActionRegistry {
    handlers: Vec<(String, u64)>,
}

impl View for AiActionRegistry {
    type V = Seq<(Seq<char>, u64)>;

    closed spec fn view(&self) -> Seq<(Seq<char>, u64)> {
        Seq::new(self.handlers@.len(), |i: int| (self.handlers@[i].0@, self.handlers@[i].1))
    }
}

impl AiActionRegistry {
    /// Fresh registry with no handlers.
    pub fn new() -> (r: Self)
        ensures
            r@ == Seq::<(Seq<char>, u64)>::empty(),
    {
        let r = AiActionRegistry { handlers: Vec::new() };
        proof {
            assert(r@ =~= Seq::<(Seq<char>, u64)>::empty());
        }
        r
    }

    /// Bind `name` to the handler token `handler`, replacing any earlier
    /// binding of the same name.
    pub fn register(&mut self, name: &str, handler: u64)
        ensures
            final(self)@ == sp_reg_insert(old(self)@, name@, handler),
    {
        let ghost before = self.handlers@;
        let ghost hs = old(self)@;
        let name_owned = name.to_owned();
        match key_position_reg(&self.handlers, &name_owned) {
            Some(i) => {
                self.handlers.set(i, (name_owned, handler));
                proof {
                    assert forall|k: int| 0 <= k < i implies (#[trigger] hs[k]).0 != name@ by {
                        assert(hs[k] == (before[k].0@, before[k].1));
                    }
                    assert(hs[i as int] == (before[i as int].0@, before[i as int].1));
                    lemma_reg_insert_update(hs, name@, handler, i as int);
                    assert forall|k: int| 0 <= k < self.handlers@.len() implies self@[k]
                        == hs.update(i as int, (name@, handler))[k] by {
                        assert(self@[k] == (self.handlers@[k].0@, self.handlers@[k].1));
                        if k != i {
                            assert(self.handlers@[k] == before[k]);
                            assert(hs[k] == (before[k].0@, before[k].1));
                        }
                    }
                    assert(self@ =~= hs.update(i as int, (name@, handler)));
                }
            },
            None => {
                self.handlers.push((name_owned, handler));
                proof {
                    assert forall|k: int| 0 <= k < hs.len() implies (#[trigger] hs[k]).0 != name@
                        by {
                        assert(hs[k] == (before[k].0@, before[k].1));
                    }
                    lemma_reg_insert_append(hs, name@, handler);
                    assert forall|k: int| 0 <= k < self.handlers@.len() implies self@[k]
                        == hs.push((name@, handler))[k] by {
                        assert(self@[k] == (self.handlers@[k].0@, self.handlers@[k].1));
                        if k < before.len() {
                            assert(self.handlers@[k] == before[k]);
                            assert(hs[k] == (before[k].0@, before[k].1));
                        }
                    }
                    assert(self@ =~= hs.push((name@, handler)));
                }
            },
        }
    }

    /// Bind `name` to a handler token whose host-side wrapper first
    /// deserialises the action's parameters into its typed form; the
    /// registry itself keeps the same name-keyed, last-write-wins rule.
    pub fn register_typed(&mut self, name: &str, handler: u64)
        ensures
            final(self)@ == sp_reg_insert(old(self)@, name@, handler),
    {
        self.register(name, handler);
    }

    /// Handler token bound to `name`, if any.
    pub fn get(&self, name: &str) -> (r: Option<u64>)
        ensures
            r == sp_reg_lookup(self@, name@),
    {
        let name_owned = name.to_owned();
        match key_position_reg(&self.handlers, &name_owned) {
            Some(i) => {
                proof {
                    assert forall|k: int| 0 <= k < i implies (#[trigger] self@[k]).0 != name@ by {
                        assert(self@[k] == (self.handlers@[k].0@, self.handlers@[k].1));
                    }
                    assert(self@[i as int] == (self.handlers@[i as int].0@, self.handlers@[i as int].1));
                    lemma_reg_lookup_at(self@, name@, i as int);
                }
                Some(self.handlers[i].1)
            },
            None => {
                proof {
                    assert forall|k: int| 0 <= k < self@.len() implies (#[trigger] self@[k]).0
                        != name@ by {
                        assert(self@[k] == (self.handlers@[k].0@, self.handlers@[k].1));
                    }
                    lemma_reg_lookup_none(self@, name@);
                }
                None
            },
        }
    }

    /// One dispatch pass: drain the whole pending queue, pairing each
    /// event whose action name is registered with its handler token, in
    /// queue order; events without a handler are dropped.
    pub fn run_pending(&self, pending: &mut PendingAiActions) -> (runs: Vec<(u64, AiActionEvent)>)
        ensures
            final(pending)@ == Seq::<AiActionEventView>::empty(),
            runs@.len() == sp_dispatch(self@, old(pending)@, 0).len(),
            forall|i: int|
                0 <= i < runs@.len() ==> ((#[trigger] runs@[i]).0, runs@[i].1@) == sp_dispatch(
                    self@,
                    old(pending)@,
                    0,
                )[i],
    {
        let ghost evts = old(pending)@;
        let n = pending.actions.len();
        let mut runs: Vec<(u64, AiActionEvent)> = Vec::new();
        let mut i: usize = 0;
        while i < n
            invariant
                i <= n,
                n == pending.actions@.len(),
                pending.actions@ == old(pending).actions@,
                evts == old(pending)@,
                evts.len() == n,
                forall|k: int| 0 <= k < n ==> evts[k] == (#[trigger] pending.actions@[k])@,
                sp_dispatch(self@, evts, 0) == runs_view(runs@) + sp_dispatch(self@, evts, i as int),
                forall|k: int|
                    0 <= k < runs@.len() ==> ((#[trigger] runs@[k]).0, runs@[k].1@) == runs_view(
                        runs@,
                    )[k],
            decreases n - i,
        {
            let evt = pending.actions[i].clone();
            let ghost runs_before = runs@;
            match self.get(evt.action.name.as_str()) {
                Some(h) => {
                    runs.push((h, evt));
                    proof {
                        assert(runs_view(runs@) =~= runs_view(runs_before) + seq![
                            (h, evts[i as int]),
                        ]);
                        assert(sp_dispatch(self@, evts, 0) =~= runs_view(runs@) + sp_dispatch(
                            self@,
                            evts,
                            i + 1,
                        ));
                    }
                },
                None => {
                    proof {
                        assert(sp_dispatch(self@, evts, 0) =~= runs_view(runs@) + sp_dispatch(
                            self@,
                            evts,
                            i + 1,
                        ));
                    }
                },
            }
            i = i + 1;
        }
        pending.actions = Vec::new();
        proof {
            assert(pending@ =~= Seq::<AiActionEventView>::empty());
            assert(sp_dispatch(self@, evts, n as int) =~= Seq::<(u64, AiActionEventView)>::empty());
            assert(runs_view(runs@) =~= sp_dispatch(self@, evts, 0));
        }
        runs
    }
}

/// Model of a dispatch list.
pub open spec fn runs_view(runs: Seq<(u64, AiActionEvent)>) -> Seq<(u64, AiActionEventView)> {
    Seq::new(runs.len(), |i: int| (runs[i].0, runs[i].1@))
}

/// The dispatch list for `evts[i..]`: each event with a registered
/// action name, in order, paired with its handler token.
pub open spec fn sp_dispatch(
    handlers: Seq<(Seq<char>, u64)>,
    evts: Seq<AiActionEventView>,
    i: int,
) -> Seq<(u64, AiActionEventView)>
    decreases evts.len() - i,
{
    if !(0 <= i < evts.len()) {
        Seq::empty()
    } else {
        match sp_reg_lookup(handlers, evts[i].action.name) {
            Some(h) => seq![(h, evts[i])] + sp_dispatch(handlers, evts, i + 1),
            None => sp_dispatch(handlers, evts, i + 1),
        }
    }
}

/// Position of the first handler bound to `name`, if any.
fn key_position_reg(handlers: &Vec<(String, u64)>, name: &String) -> (r: Option<usize>)
    ensures
        r matches Some(i) ==> i < handlers@.len() && handlers@[i as int].0@ == name@ && (forall|
            k: int,
        |
            0 <= k < i ==> (#[trigger] handlers@[k]).0@ != name@),
        r is None ==> forall|k: int|
            0 <= k < handlers@.len() ==> (#[trigger] handlers@[k]).0@ != name@,
{
    let n = handlers.len();
    let mut i: usize = 0;
    while i < n
        invariant
            i <= n,
            n == handlers@.len(),
            forall|k: int| 0 <= k < i ==> (#[trigger] handlers@[k]).0@ != name@,
        decreases n - i,
    {
        if handlers[i].0 == *name {
            return Some(i);
        }
        i = i + 1;
    }
    None
}

/// When `name` first occurs at position `i`, inserting is updating there.
proof fn lemma_reg_insert_update(handlers: Seq<(Seq<char>, u64)>, name: Seq<char>, h: u64, i: int)
    requires
        0 <= i < handlers.len(),
        forall|k: int| 0 <= k < i ==> (#[trigger] handlers[k]).0 != name,
        handlers[i].0 == name,
    ensures
        sp_reg_insert(handlers, name, h) =~= handlers.update(i, (name, h)),
    decreases i,
{
    if i == 0 {
        assert(seq![(name, h)] + handlers.drop_first() =~= handlers.update(0, (name, h)));
    } else {
        assert(forall|k: int|
            0 <= k < i - 1 ==> (#[trigger] handlers.drop_first()[k]) == handlers[k + 1]);
        lemma_reg_insert_update(handlers.drop_first(), name, h, i - 1);
        assert(seq![handlers[0]] + handlers.drop_first().update(i - 1, (name, h))
            =~= handlers.update(i, (name, h)));
    }
}

/// When `name` occurs nowhere, inserting is appending.
proof fn lemma_reg_insert_append(handlers: Seq<(Seq<char>, u64)>, name: Seq<char>, h: u64)
    requires
        forall|k: int| 0 <= k < handlers.len() ==> (#[trigger] handlers[k]).0 != name,
    ensures
        sp_reg_insert(handlers, name, h) =~= handlers.push((name, h)),
    decreases handlers.len(),
{
    if handlers.len() == 0 {
        assert(sp_reg_insert(handlers, name, h) =~= handlers.push((name, h)));
    } else {
        assert(forall|k: int|
            0 <= k < handlers.drop_first().len() ==> (#[trigger] handlers.drop_first()[k])
                == handlers[k + 1]);
        lemma_reg_insert_append(handlers.drop_first(), name, h);
        assert(seq![handlers[0]] + handlers.drop_first().push((name, h)) =~= handlers.push(
            (name, h),
        ));
    }
}

/// When `name` first occurs at position `i`, the lookup finds it.
proof fn lemma_reg_lookup_at(handlers: Seq<(Seq<char>, u64)>, name: Seq<char>, i: int)
    requires
        0 <= i < handlers.len(),
        forall|k: int| 0 <= k < i ==> (#[trigger] handlers[k]).0 != name,
        handlers[i].0 == name,
    ensures
        sp_reg_lookup(handlers, name) == Some(handlers[i].1),
    decreases i,
{
    if i > 0 {
        assert(forall|k: int|
            0 <= k < i - 1 ==> (#[trigger] handlers.drop_first()[k]) == handlers[k + 1]);
        lemma_reg_lookup_at(handlers.drop_first(), name, i - 1);
    }
}

/// When `name` occurs nowhere, the lookup finds nothing.
proof fn lemma_reg_lookup_none(handlers: Seq<(Seq<char>, u64)>, name: Seq<char>)
    requires
        forall|k: int| 0 <= k < handlers.len() ==> (#[trigger] handlers[k]).0 != name,
    ensures
        sp_reg_lookup(handlers, name) is None,
    decreases handlers.len(),
{
    if handlers.len() > 0 {
        assert(forall|k: int|
            0 <= k < handlers.drop_first().len() ==> (#[trigger] handlers.drop_first()[k])
                == handlers[k + 1]);
        lemma_reg_lookup_none(handlers.drop_first(), name);
    }
}

} // verus!

verus! {

/// Read one member of an object-shaped JSON value.
pub fn json_get<'a>(v: &'a JsonValue, key: &str) -> (r: Option<&'a JsonValue>)
    ensures
        (match v@ {
            Jv::Obj(ms) => match sp_obj_lookup(ms, key@) {
                Some(x) => r matches Some(m) && m@ == x,
                None => r is None,
            },
            _ => r is None,
        }),
{
    match v {
        JsonValue::Object(members) => {
            let ghost ms = jv_members_view(members@, 0);
            proof {
                lemma_jv_members_view(members@, 0);
            }
            let key_owned = key.to_owned();
            match key_position(members, &key_owned) {
                Some(i) => {
                    proof {
                        assert forall|k: int| 0 <= k < i implies (#[trigger] ms[k]).0 != key@ by {
                            assert(ms[k] == (members@[k].0@, jv_view(members@[k].1)));
                        }
                        assert(ms[i as int] == (members@[i as int].0@, jv_view(
                            members@[i as int].1,
                        )));
                        lemma_obj_lookup_at(ms, key@, i as int);
                    }
                    Some(&members[i].1)
                },
                None => {
                    proof {
                        assert forall|k: int| 0 <= k < ms.len() implies (#[trigger] ms[k]).0
                            != key@ by {
                            assert(ms[k] == (members@[k].0@, jv_view(members@[k].1)));
                        }
                        lemma_obj_lookup_none(ms, key@);
                    }
                    None
                },
            }
        },
        _ => None,
    }
}

} // verus!

verus! {

/// Prompt the backend for a typed action: the user message is wrapped
/// with schema instructions, the response is parsed through the
/// extraction path, and on success the action is queued for dispatch
/// under the declared name. The backend decides success; whatever text
/// came back, an `Ok` value is exactly the JSON extracted from it.
pub fn prompt_typed_action<B: crate::dialogue::LocalAi>(
    backend: &B,
    user_message: &str,
    schema_description: &str,
    action_name: &str,
    entity: u64,
    pending: &mut PendingAiActions,
) -> (r: Result<(JsonValue, String), String>)
    ensures
        r matches Ok((v, response)) ==> crate::parse::sp_extract_and_parse(response@) == Some(v@)
            && final(pending)@ == old(pending)@ + seq![
            AiActionEventView {
                entity,
                action: ActionPayloadView { name: action_name@, params: v@ },
            },
        ],
        r is Err ==> final(pending)@ == old(pending)@,
{
    let formatted = crate::parse::build_typed_prompt(schema_description, user_message);
    let mut messages: Vec<crate::rag::AiMessage> = Vec::new();
    messages.push(crate::rag::AiMessage::user(formatted.as_str()));
    match backend.prompt(&messages) {
        Ok(response) => {
            match crate::parse::extract_and_parse_json(response.as_str()) {
                Ok(v) => {
                    let action = ActionPayload { name: action_name.to_owned(), params: v.clone() };
                    pending.actions.push(AiActionEvent { entity, action });
                    proof {
                        assert(pending@ =~= old(pending)@ + seq![
                            AiActionEventView {
                                entity,
                                action: ActionPayloadView { name: action_name@, params: v@ },
                            },
                        ]);
                    }
                    Ok((v, response))
                },
                Err(e) => {
                    proof {
                        assert(pending@ =~= old(pending)@);
                    }
                    Err(e)
                },
            }
        },
        Err(e) => {
            proof {
                assert(pending@ =~= old(pending)@);
            }
            Err(e)
        },
    }
}

} // verus!

verus! {

/// Typed structs that convert into an [`ActionPayload`]; hosts implement
/// it for the action types their handlers receive.
pub trait IntoActionPayload {
    /// The action name that matches registered handlers.
    fn action_name() -> &'static str;

    /// Convert the typed struct into a payload.
    fn into_action_payload(self) -> ActionPayload;
}

} // verus!
