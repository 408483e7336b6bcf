//! The logical buttons of the game and sets of them.

use vstd::prelude::*;

verus! {

/// A logical button, whatever device it is mapped to.
#[derive(Clone, Copy, Debug, PartialEq, Eq, Hash, Structural)]
pub enum GameButton {
    Default,
    Grab,
    Strong,
    Fast,
    Equipment,
    Taunt,
    Light,
    Heavy,
}

impl Default for GameButton {
    fn default() -> (b: GameButton)
        ensures
            b == GameButton::Default,
    {
        GameButton::Default
    }
}

/// A set of buttons, kept in a hash set of `bevy::utils`. That the set holds
/// a button once rests on the derived `Eq` and `Hash` of `GameButton`.
#[verifier::external_body]
#[derive(Debug, PartialEq, Eq)]
pub struct ButtonSet {
    items: bevy::utils::HashSet<GameButton>,
}

/// The buttons that a `ButtonSet` holds.
pub uninterp spec fn held_buttons(s: ButtonSet) -> Set<GameButton>;

/// `HashSet::default` of hashbrown, through `bevy::utils`: a set that holds nothing.
#[verifier::external_body]
fn hash_set_new() -> (s: ButtonSet)
    ensures
        held_buttons(s) == Set::<GameButton>::empty(),
{
    ButtonSet { items: bevy::utils::HashSet::default() }
}

/// `HashSet::contains` of hashbrown: whether the set holds the button.
#[verifier::external_body]
fn hash_set_contains(s: &ButtonSet, button: GameButton) -> (r: bool)
    ensures
        r == held_buttons(*s).contains(button),
{
    s.items.contains(&button)
}

/// `HashSet::insert` of hashbrown: afterwards the set holds the button beside
/// what it held before.
#[verifier::external_body]
fn hash_set_insert(s: &mut ButtonSet, button: GameButton)
    ensures
        held_buttons(*final(s)) == held_buttons(*old(s)).insert(button),
{
    s.items.insert(button);
}

/// `HashSet::remove` of hashbrown: afterwards the set holds what it held
/// before but for the button.
#[verifier::external_body]
fn hash_set_remove(s: &mut ButtonSet, button: GameButton)
    ensures
        held_buttons(*final(s)) == held_buttons(*old(s)).remove(button),
{
    s.items.remove(&button);
}

/// `HashSet::is_empty` of hashbrown: whether the set holds no button.
#[verifier::external_body]
fn hash_set_is_empty(s: &ButtonSet) -> (r: bool)
    ensures
        r <==> held_buttons(*s) =~= Set::<GameButton>::empty(),
{
    s.items.is_empty()
}

/// `HashSet::iter` of hashbrown, collected: every button of the set once, in
/// an order that nothing is said of.
#[verifier::external_body]
fn hash_set_items(s: &ButtonSet) -> (v: Vec<GameButton>)
    ensures
        v@.no_duplicates(),
        forall|b: GameButton| v@.contains(b) <==> held_buttons(*s).contains(b),
{
    s.items.iter().copied().collect()
}

/// `Clone::clone` of hashbrown's `HashSet`: a set that holds the same buttons.
#[verifier::external_body]
fn hash_set_clone(s: &ButtonSet) -> (r: ButtonSet)
    ensures
        held_buttons(r) == held_buttons(*s),
{
    ButtonSet { items: s.items.clone() }
}

impl View for ButtonSet {
    type V = Set<GameButton>;

    open spec fn view(&self) -> Set<GameButton> {
        held_buttons(*self)
    }
}

/// The set of the buttons that a list names.
pub open spec fn buttons_of(buttons: Seq<GameButton>) -> Set<GameButton> {
    Set::new(|b: GameButton| buttons.contains(b))
}

impl ButtonSet {
    /// The empty set.
    pub fn new() -> (s: ButtonSet)
        ensures
            s@ == Set::<GameButton>::empty(),
    {
        hash_set_new()
    }

    /// The set of the buttons listed; one listed twice is held once.
    pub fn from_buttons(buttons: &Vec<GameButton>) -> (s: ButtonSet)
        ensures
            s@ == buttons_of(buttons@),
    {
        let mut s = hash_set_new();
        let mut i: usize = 0;
        while i < buttons.len()
            invariant
                i <= buttons.len(),
                s@ == buttons_of(buttons@.take(i as int)),
            decreases buttons.len() - i,
        {
            hash_set_insert(&mut s, buttons[i]);
            proof {
                let before = buttons@.take(i as int);
                let after = buttons@.take(i as int + 1);
                assert(after == before.push(buttons@[i as int]));
                assert forall|b: GameButton|
                    buttons_of(after).contains(b) <==> buttons_of(before).insert(
                        buttons@[i as int],
                    ).contains(b) by {
                    if before.contains(b) {
                        let j = choose|j: int| 0 <= j < before.len() && before[j] == b;
                        assert(after[j] == b);
                    }
                    if after.contains(b) {
                        let j = choose|j: int| 0 <= j < after.len() && after[j] == b;
                        if j < i {
                            assert(before[j] == b);
                        }
                    }
                    assert(after[i as int] == buttons@[i as int]);
                }
                assert(buttons_of(after) =~= buttons_of(before).insert(buttons@[i as int]));
            }
            i += 1;
        }
        proof {
            assert(buttons@.take(i as int) == buttons@);
        }
        s
    }

    /// Whether the set holds the button.
    pub fn contains(&self, button: GameButton) -> (r: bool)
        ensures
            r == self@.contains(button),
    {
        hash_set_contains(self, button)
    }

    /// Whether the set holds no button.
    pub fn is_empty(&self) -> (r: bool)
        ensures
            r <==> self@ =~= Set::<GameButton>::empty(),
    {
        hash_set_is_empty(self)
    }

    /// Adds the button to the set.
    pub fn insert(&mut self, button: GameButton)
        ensures
            final(self)@ == old(self)@.insert(button),
    {
        hash_set_insert(self, button)
    }

    /// Takes the button out of the set.
    pub fn remove(&mut self, button: GameButton)
        ensures
            final(self)@ == old(self)@.remove(button),
    {
        hash_set_remove(self, button)
    }

    /// The buttons of the set, each once, in no particular order.
    pub fn to_vec(&self) -> (v: Vec<GameButton>)
        ensures
            v@.no_duplicates(),
            buttons_of(v@) == self@,
    {
        let v = hash_set_items(self);
        proof {
            assert(buttons_of(v@) =~= self@);
        }
        v
    }

    /// Adds every button of `other` to the set.
    pub fn extend(&mut self, other: &ButtonSet)
        ensures
            final(self)@ == old(self)@.union(other@),
    {
        let items = hash_set_items(other);
        let mut i: usize = 0;
        while i < items.len()
            invariant
                i <= items.len(),
                forall|b: GameButton| items@.contains(b) <==> other@.contains(b),
                self@ == old(self)@.union(buttons_of(items@.take(i as int))),
            decreases items.len() - i,
        {
            hash_set_insert(self, items[i]);
            proof {
                let before = items@.take(i as int);
                let after = items@.take(i as int + 1);
                assert(after == before.push(items@[i as int]));
                assert forall|b: GameButton|
                    buttons_of(after).contains(b) <==> buttons_of(before).insert(
                        items@[i as int],
                    ).contains(b) by {
                    if before.contains(b) {
                        let j = choose|j: int| 0 <= j < before.len() && before[j] == b;
                        assert(after[j] == b);
                    }
                    if after.contains(b) {
                        let j = choose|j: int| 0 <= j < after.len() && after[j] == b;
                        if j < i {
                            assert(before[j] == b);
                        }
                    }
                    assert(after[i as int] == items@[i as int]);
                }
                assert(self@ =~= old(self)@.union(buttons_of(after)));
            }
            i += 1;
        }
        proof {
            assert(items@.take(i as int) == items@);
            assert(self@ =~= old(self)@.union(other@));
        }
    }

    /// Takes every button of `other` out of the set.
    pub fn remove_all(&mut self, other: &ButtonSet)
        ensures
            final(self)@ == old(self)@.difference(other@),
    {
        let items = hash_set_items(other);
        let mut i: usize = 0;
        while i < items.len()
            invariant
                i <= items.len(),
                forall|b: GameButton| items@.contains(b) <==> other@.contains(b),
                self@ == old(self)@.difference(buttons_of(items@.take(i as int))),
            decreases items.len() - i,
        {
            hash_set_remove(self, items[i]);
            proof {
                let before = items@.take(i as int);
                let after = items@.take(i as int + 1);
                assert(after == before.push(items@[i as int]));
                assert forall|b: GameButton|
                    buttons_of(after).contains(b) <==> buttons_of(before).insert(
                        items@[i as int],
                    ).contains(b) by {
                    if before.contains(b) {
                        let j = choose|j: int| 0 <= j < before.len() && before[j] == b;
                        assert(after[j] == b);
                    }
                    if after.contains(b) {
                        let j = choose|j: int| 0 <= j < after.len() && after[j] == b;
                        if j < i {
                            assert(before[j] == b);
                        }
                    }
                    assert(after[i as int] == items@[i as int]);
                }
                assert(self@ =~= old(self)@.difference(buttons_of(after)));
            }
            i += 1;
        }
        proof {
            assert(items@.take(i as int) == items@);
            assert(self@ =~= old(self)@.difference(other@));
        }
    }

    /// Whether every button listed is in the set.
    pub fn holds_all(&self, buttons: &Vec<GameButton>) -> (r: bool)
        ensures
            r == buttons_of(buttons@).subset_of(self@),
    {
        let mut i: usize = 0;
        while i < buttons.len()
            invariant
                i <= buttons.len(),
                forall|j: int| 0 <= j < i ==> self@.contains(#[trigger] buttons@[j]),
            decreases buttons.len() - i,
        {
            if !hash_set_contains(self, buttons[i]) {
                proof {
                    assert(buttons@.contains(buttons@[i as int]));
                    assert(buttons_of(buttons@).contains(buttons@[i as int]));
                }
                return false;
            }
            i += 1;
        }
        true
    }
}

impl Clone for ButtonSet {
    fn clone(&self) -> (r: ButtonSet)
        ensures
            r@ == self@,
    {
        hash_set_clone(self)
    }
}

impl Default for ButtonSet {
    fn default() -> (s: ButtonSet)
        ensures
            s@ == Set::<GameButton>::empty(),
    {
        hash_set_new()
    }
}

} // verus!
