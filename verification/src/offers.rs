//! The commands on offer at a point of the chord sequence, listed for
//! the legend: sorted by their chords, each list of chords once.

use vstd::prelude::*;
use crate::editor_command::{CommandView, EditorCommand};
use crate::key_input::KeyInput;
use crate::keybinding::{
    group_named, holds_key, BindingsView, EntryView, KeyBindings, KeyBindingsGroup, KeySequence, KeySet,
};

verus! {

/// Reading order among lists of chords, looking from index `i` on:
/// chord by chord, a list before every longer list that begins with it.
pub open spec fn keys_before_from(a: Seq<KeyInput>, b: Seq<KeyInput>, i: int) -> bool
    decreases b.len() - i,
{
    if i >= b.len() {
        false
    } else if i >= a.len() {
        true
    } else if a[i] == b[i] {
        keys_before_from(a, b, i + 1)
    } else {
        a[i].before(b[i])
    }
}

/// Reading order among lists of chords.
pub open spec fn keys_before(a: Seq<KeyInput>, b: Seq<KeyInput>) -> bool {
    keys_before_from(a, b, 0)
}

/// A list of offers in reading order of their chords, no list of chords
/// twice.
pub open spec fn offers_in_order(list: Seq<EntryView>) -> bool {
    forall|i: int, j: int| 0 <= i < j < list.len() ==> keys_before(list[i].keys, list[j].keys)
}

/// `list` with `offer` put in its place: after the offers whose chords
/// come before its own, and instead of an offer with the same chords.
pub open spec fn place(list: Seq<EntryView>, offer: EntryView) -> Seq<EntryView>
    decreases list.len(),
{
    if list.len() == 0 {
        seq![offer]
    } else if keys_before(list.last().keys, offer.keys) {
        list.push(offer)
    } else if list.last().keys == offer.keys {
        list.drop_last().push(offer)
    } else {
        place(list.drop_last(), offer).push(list.last())
    }
}

/// `list` with the first `n` of `offers` put in their places, one after
/// another.
pub open spec fn place_all(list: Seq<EntryView>, offers: Seq<EntryView>, n: int) -> Seq<EntryView>
    decreases n,
{
    if n <= 0 {
        list
    } else if offers[n - 1].keys.len() == 0 {
        place_all(list, offers, n - 1)
    } else {
        place(place_all(list, offers, n - 1), offers[n - 1])
    }
}

/// The group that the first `n` of `entries` lead to with the chord
/// `key`: of the bindings that answer to `key` with a scope command
/// naming a group, the bindings of those groups are listed.
pub open spec fn place_behind(
    b: BindingsView,
    list: Seq<EntryView>,
    entries: Seq<EntryView>,
    key: KeyInput,
    n: int,
) -> Seq<EntryView>
    decreases n,
{
    if n <= 0 {
        list
    } else {
        let before = place_behind(b, list, entries, key, n - 1);
        match entries[n - 1].command {
            CommandView::Scope(name) => if entries[n - 1].keys.contains(key) {
                match group_named(b.groups, name, 0) {
                    Some(g) => place_all(before, g, g.len() as int),
                    None => before,
                }
            } else {
                before
            },
            _ => before,
        }
    }
}

impl BindingsView {
    /// The commands on offer from within `group` after the chords
    /// `prefix`, sorted by their chords.
    ///
    /// Before any chord, these are the bindings of the group. After one
    /// chord, they are the bindings of every group that the chord leads
    /// to. After more, the group offers nothing. The global bindings are
    /// on offer throughout, and take the place of a binding of the group
    /// that has the same chords. Of two bindings with the same chords
    /// the later one is listed; a binding without chords is not listed.
    pub open spec fn possible_commands(self, group: Seq<EntryView>, prefix: Seq<KeyInput>) -> Seq<EntryView> {
        let own = if prefix.len() == 0 {
            place_all(Seq::empty(), group, group.len() as int)
        } else if prefix.len() == 1 {
            place_behind(self, Seq::empty(), group, prefix[0], group.len() as int)
        } else {
            Seq::empty()
        };
        match self.global {
            Some(g) => place_all(own, g, g.len() as int),
            None => own,
        }
    }
}

/// How two lists of chords stand to each other.
#[derive(Clone, Copy, PartialEq, Eq, Structural)]
enum Order {
    Before,
    Same,
    After,
}

proof fn lemma_same_from(a: Seq<KeyInput>, b: Seq<KeyInput>, i: int)
    requires
        0 <= i <= a.len(),
        a.len() == b.len(),
        forall|k: int| i <= k < a.len() ==> a[k] == b[k],
    ensures
        !keys_before_from(a, b, i),
    decreases a.len() - i,
{
    if i < a.len() {
        lemma_same_from(a, b, i + 1);
    }
}

/// How `a` stands to `b` in reading order.
fn order_of(a: &KeySet, b: &KeySet) -> (o: Order)
    ensures
        (o == Order::Before) == keys_before(a@, b@),
        (o == Order::Same) == (a@ == b@),
{
    let mut i: usize = 0;
    while i < a.0.len() && i < b.0.len()
        invariant
            i <= a.0.len(),
            i <= b.0.len(),
            forall|k: int| 0 <= k < i ==> a@[k] == b@[k],
            keys_before(a@, b@) == keys_before_from(a@, b@, i as int),
        decreases a.0.len() - i,
    {
        if a.0[i] != b.0[i] {
            return if a.0[i].precedes(&b.0[i]) {
                Order::Before
            } else {
                Order::After
            };
        }
        i += 1;
    }
    if i < b.0.len() {
        Order::Before
    } else if i < a.0.len() {
        Order::After
    } else {
        assert(a@ =~= b@);
        Order::Same
    }
}

/// A copy of a list of chords.
fn copy_keys(keys: &KeySet) -> (copy: KeySet)
    ensures
        copy@ == keys@,
{
    let mut out: Vec<KeyInput> = Vec::new();
    let mut i: usize = 0;
    while i < keys.0.len()
        invariant
            i <= keys.0.len(),
            out@ == keys@.take(i as int),
        decreases keys.0.len() - i,
    {
        out.push(keys.0[i]);
        assert(keys@.take(i as int + 1) =~= keys@.take(i as int).push(keys@[i as int]));
        i += 1;
    }
    assert(keys@.take(keys.0.len() as int) =~= keys@);
    KeySet(out)
}

/// The offers as plain values.
pub open spec fn offers_view(list: Seq<(KeySet, EditorCommand)>) -> Seq<EntryView> {
    Seq::new(list.len(), |i: int| EntryView { keys: list[i].0@, command: list[i].1@ })
}

/// Where an offer stands once the offers from index `i` on are known to
/// come after it.
proof fn lemma_place_tail(list: Seq<EntryView>, offer: EntryView, i: int)
    requires
        0 <= i <= list.len(),
        forall|t: int| i <= t < list.len() ==> !keys_before(list[t].keys, offer.keys) && list[t].keys != offer.keys,
    ensures
        place(list, offer) == place(list.take(i), offer) + list.skip(i),
    decreases list.len() - i,
{
    if i < list.len() {
        let head = list.drop_last();
        assert forall|t: int| i <= t < head.len() implies !keys_before(head[t].keys, offer.keys) && head[t].keys
            != offer.keys by {
            assert(head[t] == list[t]);
        }
        lemma_place_tail(head, offer, i);
        assert(head.take(i) =~= list.take(i));
        assert(head.skip(i).push(list.last()) =~= list.skip(i));
        assert((place(head.take(i), offer) + head.skip(i)).push(list.last()) =~= place(list.take(i), offer)
            + list.skip(i));
    } else {
        assert(list.take(i) =~= list);
        assert(list.skip(i) =~= Seq::<EntryView>::empty());
        assert(place(list, offer) + Seq::<EntryView>::empty() =~= place(list, offer));
    }
}

/// Puts an offer in its place in the list.
fn place_offer(list: &mut Vec<(KeySet, EditorCommand)>, keys: &KeySet, command: &EditorCommand)
    ensures
        offers_view(final(list)@) == place(offers_view(old(list)@), EntryView { keys: keys@, command: command@ }),
{
    let ghost before = offers_view(list@);
    let ghost offer = EntryView { keys: keys@, command: command@ };
    let mut i: usize = list.len();
    let mut same = false;
    let mut earlier = false;
    while i > 0 && !same && !earlier
        invariant
            i <= list.len(),
            list@ == old(list)@,
            before == offers_view(list@),
            offer == (EntryView { keys: keys@, command: command@ }),
            forall|t: int| i <= t < before.len() ==> !keys_before(before[t].keys, offer.keys) && before[t].keys
                != offer.keys,
            same ==> i > 0 && before[i - 1].keys == offer.keys,
            earlier ==> i > 0 && keys_before(before[i - 1].keys, offer.keys),
        decreases i + if same || earlier { 0int } else { 1int },
    {
        assert(before[i - 1].keys == list@[i - 1].0@);
        let o = order_of(&list[i - 1].0, keys);
        if o == Order::Before {
            earlier = true;
        } else if o == Order::Same {
            same = true;
        } else {
            i -= 1;
        }
    }
    proof {
        lemma_place_tail(before, offer, i as int);
    }
    let entry = (copy_keys(keys), command.copy());
    if same {
        list[i - 1] = entry;
        proof {
            let head = before.take(i as int);
            assert(head.last() == before[i - 1]);
            assert(!keys_before(head.last().keys, offer.keys)) by {
                lemma_same_from(head.last().keys, offer.keys, 0);
            }
            assert(offers_view(list@) =~= head.drop_last().push(offer) + before.skip(i as int));
        }
    } else {
        list.insert(i, entry);
        proof {
            let head = before.take(i as int);
            if i > 0 {
                assert(head.last() == before[i - 1]);
                assert(before[i - 1].keys == old(list)@[i - 1].0@);
            }
            assert(offers_view(list@) =~= head.push(offer) + before.skip(i as int));
        }
    }
}

/// Puts the bindings of `group` in their places in the list.
fn place_group(list: &mut Vec<(KeySet, EditorCommand)>, group: &KeyBindingsGroup)
    ensures
        offers_view(final(list)@) == place_all(offers_view(old(list)@), group@, group@.len() as int),
{
    let mut i: usize = 0;
    while i < group.entries.len()
        invariant
            i <= group.entries.len(),
            offers_view(list@) == place_all(offers_view(old(list)@), group@, i as int),
        decreases group.entries.len() - i,
    {
        let entry = &group.entries[i];
        assert(group@[i as int] == entry@);
        if entry.keys.0.len() > 0 {
            place_offer(list, &entry.keys, &entry.command);
        }
        i += 1;
    }
}

impl KeyBindings {
    /// The commands on offer from within `group` after the chords
    /// `prefix`, sorted by their chords. See
    /// [`BindingsView::possible_commands`].
    pub fn possible_commands(&self, group: &KeyBindingsGroup, prefix: &KeySequence) -> (out: Vec<
        (KeySet, EditorCommand),
    >)
        ensures
            offers_view(out@) == self@.possible_commands(group@, prefix@),
    {
        let mut out: Vec<(KeySet, EditorCommand)> = Vec::new();
        assert(offers_view(out@) =~= Seq::<EntryView>::empty());
        if prefix.0.len() == 0 {
            place_group(&mut out, group);
        } else if prefix.0.len() == 1 {
            let key = prefix.0[0];
            let mut i: usize = 0;
            while i < group.entries.len()
                invariant
                    i <= group.entries.len(),
                    key == prefix@[0],
                    offers_view(out@) == place_behind(self@, Seq::empty(), group@, key, i as int),
                decreases group.entries.len() - i,
            {
                let entry = &group.entries[i];
                assert(group@[i as int] == entry@);
                match &entry.command {
                    EditorCommand::Scope(name) => {
                        if holds_key(&entry.keys, key) {
                            match self.group(name) {
                                Some(next) => {
                                    place_group(&mut out, next);
                                },
                                None => {},
                            }
                        }
                    },
                    _ => {},
                }
                i += 1;
            }
        }
        match &self.global {
            Some(global) => {
                place_group(&mut out, global);
            },
            None => {},
        }
        out
    }
}

/// Of two different chords one comes before the other.
pub proof fn lemma_chords_total(a: KeyInput, b: KeyInput)
    ensures
        a == b || a.before(b) || b.before(a),
        !(a.before(b) && b.before(a)),
        !a.before(a),
{
}

proof fn lemma_keys_transitive_from(a: Seq<KeyInput>, b: Seq<KeyInput>, c: Seq<KeyInput>, i: int)
    requires
        0 <= i,
        keys_before_from(a, b, i),
        keys_before_from(b, c, i),
    ensures
        keys_before_from(a, c, i),
    decreases b.len() - i,
{
    if i < a.len() {
        lemma_chords_total(a[i], b[i]);
        lemma_chords_total(b[i], c[i]);
        lemma_chords_total(a[i], c[i]);
        if a[i] == b[i] && b[i] == c[i] {
            lemma_keys_transitive_from(a, b, c, i + 1);
        }
    }
}

proof fn lemma_keys_total_from(a: Seq<KeyInput>, b: Seq<KeyInput>, i: int)
    requires
        0 <= i <= a.len(),
        i <= b.len(),
        forall|k: int| 0 <= k < i ==> a[k] == b[k],
        a != b,
    ensures
        keys_before_from(a, b, i) || keys_before_from(b, a, i),
    decreases a.len() - i,
{
    if i < a.len() && i < b.len() {
        lemma_chords_total(a[i], b[i]);
        if a[i] == b[i] {
            lemma_keys_total_from(a, b, i + 1);
        }
    } else if i == a.len() && i == b.len() {
        assert(a =~= b);
    }
}

/// The reading order among lists of chords is a strict total order.
pub proof fn lemma_keys_order(a: Seq<KeyInput>, b: Seq<KeyInput>, c: Seq<KeyInput>)
    ensures
        !keys_before(a, a),
        keys_before(a, b) && keys_before(b, c) ==> keys_before(a, c),
        a == b || keys_before(a, b) || keys_before(b, a),
{
    lemma_same_from(a, a, 0);
    if keys_before(a, b) && keys_before(b, c) {
        lemma_keys_transitive_from(a, b, c, 0);
    }
    if a != b {
        lemma_keys_total_from(a, b, 0);
    }
}

/// Whether `list` holds an offer with the chords `keys`.
pub open spec fn offers_keys(list: Seq<EntryView>, keys: Seq<KeyInput>) -> bool {
    exists|j: int| 0 <= j < list.len() && (#[trigger] list[j]).keys == keys
}

/// Putting an offer in its place keeps the list in order, and brings in
/// no other chords than those of the offer.
pub proof fn lemma_place_keeps_order(list: Seq<EntryView>, offer: EntryView)
    requires
        offers_in_order(list),
    ensures
        offers_in_order(place(list, offer)),
        forall|i: int|
            0 <= i < place(list, offer).len() ==> (#[trigger] place(list, offer)[i]).keys == offer.keys
                || offers_keys(list, place(list, offer)[i].keys),
    decreases list.len(),
{
    let out = place(list, offer);
    if list.len() == 0 {
    } else if keys_before(list.last().keys, offer.keys) {
        assert forall|i: int, j: int| 0 <= i < j < out.len() implies keys_before(out[i].keys, out[j].keys) by {
            if j == list.len() && i < list.len() - 1 {
                assert(keys_before(list[i].keys, list[list.len() - 1].keys));
                lemma_keys_order(list[i].keys, list.last().keys, offer.keys);
            }
        }
        assert forall|i: int| 0 <= i < out.len() implies (#[trigger] out[i]).keys == offer.keys || offers_keys(
            list,
            out[i].keys,
        ) by {
            if i < list.len() {
                assert(list[i].keys == out[i].keys);
            }
        }
    } else if list.last().keys == offer.keys {
        assert forall|i: int, j: int| 0 <= i < j < out.len() implies keys_before(out[i].keys, out[j].keys) by {
            assert(keys_before(list[i].keys, list[j].keys));
        }
        assert forall|i: int| 0 <= i < out.len() implies (#[trigger] out[i]).keys == offer.keys || offers_keys(
            list,
            out[i].keys,
        ) by {
            if i < list.len() - 1 {
                assert(list[i].keys == out[i].keys);
            }
        }
    } else {
        let head = list.drop_last();
        assert(offers_in_order(head)) by {
            assert forall|i: int, j: int| 0 <= i < j < head.len() implies keys_before(head[i].keys, head[j].keys) by {
                assert(keys_before(list[i].keys, list[j].keys));
            }
        }
        lemma_place_keeps_order(head, offer);
        let inner = place(head, offer);
        lemma_keys_order(offer.keys, list.last().keys, offer.keys);
        assert forall|i: int, j: int| 0 <= i < j < out.len() implies keys_before(out[i].keys, out[j].keys) by {
            if j == inner.len() {
                assert(out[i] == inner[i]);
                if inner[i].keys != offer.keys {
                    assert(offers_keys(head, inner[i].keys));
                    let k = choose|k: int| 0 <= k < head.len() && (#[trigger] head[k]).keys == inner[i].keys;
                    assert(keys_before(list[k].keys, list[list.len() - 1].keys));
                }
            } else {
                assert(out[i] == inner[i] && out[j] == inner[j]);
            }
        }
        assert forall|i: int| 0 <= i < out.len() implies (#[trigger] out[i]).keys == offer.keys || offers_keys(
            list,
            out[i].keys,
        ) by {
            if i < inner.len() {
                assert(out[i] == inner[i]);
                if inner[i].keys != offer.keys {
                    let k = choose|k: int| 0 <= k < head.len() && (#[trigger] head[k]).keys == inner[i].keys;
                    assert(list[k].keys == inner[i].keys);
                }
            } else {
                assert(list[list.len() - 1].keys == out[i].keys);
            }
        }
    }
}

proof fn lemma_place_all_keeps_order(list: Seq<EntryView>, offers: Seq<EntryView>, n: int)
    requires
        offers_in_order(list),
    ensures
        offers_in_order(place_all(list, offers, n)),
    decreases n,
{
    if n > 0 {
        lemma_place_all_keeps_order(list, offers, n - 1);
        if offers[n - 1].keys.len() > 0 {
            lemma_place_keeps_order(place_all(list, offers, n - 1), offers[n - 1]);
        }
    }
}

proof fn lemma_place_behind_keeps_order(
    b: BindingsView,
    list: Seq<EntryView>,
    entries: Seq<EntryView>,
    key: KeyInput,
    n: int,
)
    requires
        offers_in_order(list),
    ensures
        offers_in_order(place_behind(b, list, entries, key, n)),
    decreases n,
{
    if n > 0 {
        lemma_place_behind_keeps_order(b, list, entries, key, n - 1);
        let before = place_behind(b, list, entries, key, n - 1);
        match entries[n - 1].command {
            CommandView::Scope(name) => {
                match group_named(b.groups, name, 0) {
                    Some(g) => {
                        lemma_place_all_keeps_order(before, g, g.len() as int);
                    },
                    None => {},
                }
            },
            _ => {},
        }
    }
}

/// The commands on offer are listed in reading order of their chords,
/// and no list of chords occurs twice.
pub proof fn lemma_possible_commands_in_order(b: BindingsView, group: Seq<EntryView>, prefix: Seq<KeyInput>)
    ensures
        offers_in_order(b.possible_commands(group, prefix)),
{
    let none = Seq::<EntryView>::empty();
    let own = if prefix.len() == 0 {
        place_all(none, group, group.len() as int)
    } else if prefix.len() == 1 {
        place_behind(b, none, group, prefix[0], group.len() as int)
    } else {
        none
    };
    lemma_place_all_keeps_order(none, group, group.len() as int);
    if prefix.len() == 1 {
        lemma_place_behind_keeps_order(b, none, group, prefix[0], group.len() as int);
    }
    match b.global {
        Some(g) => {
            lemma_place_all_keeps_order(own, g, g.len() as int);
        },
        None => {},
    }
}

} // verus!
