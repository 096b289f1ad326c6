use crate::json::{Json, JsonObject, JsonValue};
use vstd::prelude::*;

verus! {

/// The delta between what a client holds for one channel and the channel's
/// new payload: a member of the new payload stays out where the client holds
/// the same value for it, and goes in otherwise. A member that the client
/// holds and the new payload lacks is kept as it is.
pub open spec fn payload_delta(
    held: Map<Seq<char>, JsonValue>,
    fresh: Map<Seq<char>, JsonValue>,
) -> Map<Seq<char>, JsonValue> {
    Map::new(
        |k: Seq<char>|
            (held.dom().contains(k) || fresh.dom().contains(k)) && !(held.dom().contains(k)
                && fresh.dom().contains(k) && held[k].same(fresh[k])),
        |k: Seq<char>|
            if fresh.dom().contains(k) {
                fresh[k]
            } else {
                held[k]
            },
    )
}

/// What a channel contributes to the delta: the delta of its payload where
/// the client holds an object for it and the new payload is an object, and the
/// new payload whole otherwise.
pub open spec fn channel_delta(
    held: Map<Seq<char>, JsonValue>,
    name: Seq<char>,
    fresh: JsonValue,
) -> JsonValue {
    if held.dom().contains(name) {
        match (held[name], fresh) {
            (JsonValue::Object(before), JsonValue::Object(after)) => JsonValue::Object(
                payload_delta(before, after),
            ),
            _ => fresh,
        }
    } else {
        fresh
    }
}

/// The delta between two snapshots with different values: one member for
/// each channel of the new one.
pub open spec fn object_delta(
    held: Map<Seq<char>, JsonValue>,
    fresh: Map<Seq<char>, JsonValue>,
) -> Map<Seq<char>, JsonValue> {
    Map::new(
        |name: Seq<char>| fresh.dom().contains(name),
        |name: Seq<char>| channel_delta(held, name, fresh[name]),
    )
}

/// The delta that takes a client from the snapshot it holds to a new one: the
/// empty object where the two are the same.
pub open spec fn snapshot_delta(held: JsonValue, fresh: JsonValue) -> JsonValue
    recommends
        held.same(fresh) || (held is Object && fresh is Object),
{
    if held.same(fresh) {
        JsonValue::empty_object()
    } else {
        match (held, fresh) {
            (JsonValue::Object(before), JsonValue::Object(after)) => JsonValue::Object(
                object_delta(before, after),
            ),
            _ => held,
        }
    }
}

/// What a client holds for a channel after it has taken a delta for it: two
/// objects are merged member by member, anything else is replaced.
pub open spec fn merge_channel(held: JsonValue, delta: JsonValue) -> JsonValue {
    match (held, delta) {
        (JsonValue::Object(before), JsonValue::Object(changes)) => JsonValue::Object(
            before.union_prefer_right(changes),
        ),
        _ => delta,
    }
}

/// What a client holds after it has taken a delta: a channel that the delta
/// does not name stays as it was.
pub open spec fn merge_delta(
    held: Map<Seq<char>, JsonValue>,
    delta: Map<Seq<char>, JsonValue>,
) -> Map<Seq<char>, JsonValue> {
    Map::new(
        |name: Seq<char>| held.dom().contains(name) || delta.dom().contains(name),
        |name: Seq<char>|
            if !delta.dom().contains(name) {
                held[name]
            } else if held.dom().contains(name) {
                merge_channel(held[name], delta[name])
            } else {
                delta[name]
            },
    )
}

/// The delta between a snapshot and itself is the empty object.
pub proof fn lemma_delta_of_equal_is_empty(snapshot: JsonValue)
    ensures
        snapshot_delta(snapshot, snapshot) == JsonValue::empty_object(),
{
    snapshot.lemma_same_reflexive();
}

/// The delta between two different snapshots names exactly the channels of
/// the new one: a channel that is gone from the new snapshot is gone from the
/// delta.
pub proof fn lemma_delta_names_new_channels(
    held: Map<Seq<char>, JsonValue>,
    fresh: Map<Seq<char>, JsonValue>,
)
    requires
        !JsonValue::Object(held).same(JsonValue::Object(fresh)),
    ensures
        snapshot_delta(JsonValue::Object(held), JsonValue::Object(fresh)) is Object,
        snapshot_delta(JsonValue::Object(held), JsonValue::Object(fresh))->Object_0.dom()
            == fresh.dom(),
{
    assert(object_delta(held, fresh).dom() =~= fresh.dom());
}

/// A client that holds one snapshot and takes the delta to another then holds,
/// for every channel of the new snapshot, a payload that is the same as the
/// channel's new one. This is stated for snapshots in which no channel loses a
/// member of its payload: the delta keeps such a member, and so does the
/// client.
pub proof fn lemma_delta_rebuilds_new(
    held: Map<Seq<char>, JsonValue>,
    fresh: Map<Seq<char>, JsonValue>,
)
    requires
        forall|name: Seq<char>|
            held.dom().contains(name) && fresh.dom().contains(name) ==> match (
                #[trigger] held[name],
                fresh[name],
            ) {
                (JsonValue::Object(before), JsonValue::Object(after)) => before.dom().subset_of(
                    after.dom(),
                ),
                _ => true,
            },
    ensures
        snapshot_delta(JsonValue::Object(held), JsonValue::Object(fresh)) is Object,
        JsonValue::Object(
            merge_delta(
                held,
                snapshot_delta(JsonValue::Object(held), JsonValue::Object(fresh))->Object_0,
            ).restrict(fresh.dom()),
        ).same(JsonValue::Object(fresh)),
{
    let delta = snapshot_delta(JsonValue::Object(held), JsonValue::Object(fresh))->Object_0;
    let merged = merge_delta(held, delta);
    let kept = merged.restrict(fresh.dom());
    if JsonValue::Object(held).same(JsonValue::Object(fresh)) {
        assert(delta =~= Map::empty());
        assert(kept.dom() =~= fresh.dom());
        assert forall|name: Seq<char>| kept.dom().contains(name) implies (#[trigger] kept[name]).same(
            fresh[name],
        ) by {
            assert(held[name].same(fresh[name]));
        }
    } else {
        assert(delta == object_delta(held, fresh));
        assert(kept.dom() =~= fresh.dom());
        assert forall|name: Seq<char>| kept.dom().contains(name) implies (#[trigger] kept[name]).same(
            fresh[name],
        ) by {
            fresh[name].lemma_same_reflexive();
            if held.dom().contains(name) {
                match (held[name], fresh[name]) {
                    (JsonValue::Object(before), JsonValue::Object(after)) => {
                        let changes = payload_delta(before, after);
                        let rebuilt = before.union_prefer_right(changes);
                        assert(kept[name] == JsonValue::Object(rebuilt));
                        assert(rebuilt.dom() =~= after.dom());
                        assert forall|k: Seq<char>| rebuilt.dom().contains(k) implies (
                        #[trigger] rebuilt[k]).same(after[k]) by {
                            after[k].lemma_same_reflexive();
                        }
                    },
                    _ => {},
                }
            }
        }
    }
}

/// The delta of one channel's payload.
fn payload_delta_of(held: &JsonObject, fresh: &JsonObject) -> (r: JsonObject)
    ensures
        r@ == payload_delta(held@, fresh@),
{
    let mut delta = held.clone();
    assert(delta@ =~= payload_delta(held@, fresh.prefix(0)));
    let mut i: usize = 0;
    while i < fresh.members.len()
        invariant
            i <= fresh.members@.len(),
            delta@ == payload_delta(held@, fresh.prefix(i as nat)),
        decreases fresh.members@.len() - i,
    {
        let key = fresh.members[i].0.as_str();
        let value = &fresh.members[i].1;
        let unchanged = match held.get(key) {
            Some(before) => before.same(value),
            None => false,
        };
        proof {
            fresh.lemma_prefix_step(i as nat);
        }
        if unchanged {
            delta.remove(key);
            assert(delta@ =~= payload_delta(held@, fresh.prefix((i + 1) as nat)));
        } else {
            delta.insert(fresh.members[i].0.clone(), value.clone());
            assert(delta@ =~= payload_delta(held@, fresh.prefix((i + 1) as nat)));
        }
        i += 1;
    }
    delta
}

/// The delta between two snapshots with different values.
fn object_delta_of(held: &JsonObject, fresh: &JsonObject) -> (r: JsonObject)
    ensures
        r@ == object_delta(held@, fresh@),
{
    let mut delta = JsonObject::new();
    assert(delta@ =~= object_delta(held@, fresh.prefix(0)));
    let mut i: usize = 0;
    while i < fresh.members.len()
        invariant
            i <= fresh.members@.len(),
            delta@ == object_delta(held@, fresh.prefix(i as nat)),
        decreases fresh.members@.len() - i,
    {
        let name = fresh.members[i].0.as_str();
        let value = &fresh.members[i].1;
        let entry = match (held.get(name), value) {
            (Some(Json::Object(before)), Json::Object(after)) => Json::Object(
                payload_delta_of(before, after),
            ),
            _ => value.clone(),
        };
        proof {
            fresh.lemma_prefix_step(i as nat);
        }
        delta.insert(fresh.members[i].0.clone(), entry);
        assert(delta@ =~= object_delta(held@, fresh.prefix((i + 1) as nat)));
        i += 1;
    }
    delta
}

/// The delta that takes a client from the snapshot it holds to a new one. Both
/// are objects with one member for each channel.
///
/// Snapshots that are the same give the empty object. Otherwise the delta
/// has a member for each channel of the new snapshot and for no other: the new
/// payload whole, or, where both payloads are objects, the members of the new
/// payload whose values differ from what the client holds, beside the members
/// that only the client holds.
pub fn json_snapshot(old_state: &Json, new_state: &Json) -> (r: Json)
    requires
        old_state@.same(new_state@) || (old_state@ is Object && new_state@ is Object),
    ensures
        r@ == snapshot_delta(old_state@, new_state@),
{
    if old_state.same(new_state) {
        return Json::empty_object();
    }
    match (old_state, new_state) {
        (Json::Object(held), Json::Object(fresh)) => Json::Object(object_delta_of(held, fresh)),
        _ => Json::empty_object(),
    }
}

/// Turns the snapshot that a client holds into the delta that takes the client
/// to a new snapshot, as `json_snapshot` computes it.
pub fn create_json_snapshot(old_state: &mut Json, new_state: &Json)
    requires
        old(old_state)@.same(new_state@) || (old(old_state)@ is Object && new_state@ is Object),
    ensures
        final(old_state)@ == snapshot_delta(old(old_state)@, new_state@),
{
    let delta = json_snapshot(&*old_state, new_state);
    *old_state = delta;
}

} // verus!
