use vstd::prelude::*;

verus! {

/// Key `k` is set in `mask`.
pub open spec fn mask_bit(mask: u16, k: int) -> bool {
    mask & (1u16 << (k as u16)) != 0
}

/// The 16 keys of `mask`.
pub open spec fn mask_keys(mask: u16) -> Seq<bool> {
    Seq::new(16, |k: int| mask_bit(mask, k))
}

/// Key `k` was down at the previous tick and is up now.
pub open spec fn is_released(down: Seq<bool>, prev: Seq<bool>, k: int) -> bool {
    prev[k] && !down[k]
}

/// The lowest-numbered released key, searching from key `k` on.
pub open spec fn lowest_released_from(down: Seq<bool>, prev: Seq<bool>, k: int) -> Option<u8>
    decreases 16 - k,
{
    if k >= 16 || k < 0 {
        None
    } else if is_released(down, prev, k) {
        Some(k as u8)
    } else {
        lowest_released_from(down, prev, k + 1)
    }
}

/// The 16 keys, held as bit masks of the current and of the previous tick.
pub struct Keypad {
    current: u16,
    previous: u16,
}

impl View for Keypad {
    /// (keys down now, keys down at the previous tick)
    type V = (Seq<bool>, Seq<bool>);

    closed spec fn view(&self) -> (Seq<bool>, Seq<bool>) {
        (mask_keys(self.current), mask_keys(self.previous))
    }
}

proof fn lemma_set_bit(c: u16, key: u16, k: u16)
    by (bit_vector)
    requires
        key < 16,
        k < 16,
    ensures
        ((c | (1u16 << key)) & (1u16 << k) != 0) == (k == key || c & (1u16 << k) != 0),
        ((c & !(1u16 << key)) & (1u16 << k) != 0) == (k != key && c & (1u16 << k) != 0),
{
}

proof fn lemma_released_bit(p: u16, c: u16, k: u16)
    by (bit_vector)
    requires
        k < 16,
    ensures
        ((p & !c) & (1u16 << k) != 0) == (p & (1u16 << k) != 0 && c & (1u16 << k) == 0),
        ((p & !c) >> k) & 1u16 == 1u16 <==> (p & !c) & (1u16 << k) != 0,
        0u16 & (1u16 << k) == 0,
{
}

proof fn lemma_zero_has_no_bit(r: u16, k: u16)
    by (bit_vector)
    requires
        r == 0,
    ensures
        r & (1u16 << k) == 0,
{
}

/// The lowest released key from `k` on is `t` when no key in `k..t` is
/// released and key `t` is.
proof fn lemma_lowest_found(down: Seq<bool>, prev: Seq<bool>, k: int, t: int)
    requires
        0 <= k <= t < 16,
        forall|j: int| k <= j < t ==> !#[trigger] is_released(down, prev, j),
        is_released(down, prev, t),
    ensures
        lowest_released_from(down, prev, k) == Some(t as u8),
    decreases t - k,
{
    if k < t {
        lemma_lowest_found(down, prev, k + 1, t);
    }
}

/// No key from `k` on is released.
proof fn lemma_lowest_none(down: Seq<bool>, prev: Seq<bool>, k: int)
    requires
        0 <= k <= 16,
        forall|j: int| k <= j < 16 ==> !#[trigger] is_released(down, prev, j),
    ensures
        lowest_released_from(down, prev, k) == None::<u8>,
    decreases 16 - k,
{
    if k < 16 {
        lemma_lowest_none(down, prev, k + 1);
    }
}

impl Keypad {
    /// Both key sets hold the 16 keys.
    pub proof fn lemma_len(&self)
        ensures
            self@.0.len() == 16,
            self@.1.len() == 16,
    {
    }

    /// No key down, now or before.
    pub fn new() -> (kp: Keypad)
        ensures
            kp@.0 == Seq::new(16, |k: int| false),
            kp@.1 == Seq::new(16, |k: int| false),
    {
        let kp = Keypad { current: 0, previous: 0 };
        proof {
            assert forall|k: int| 0 <= k < 16 implies !mask_bit(0, k) by {
                lemma_released_bit(0, 0, k as u16);
            }
        }
        kp
    }

    /// Key `key` goes down.
    pub fn press_key(&mut self, key: u8)
        requires
            key < 16,
        ensures
            final(self)@.0 == old(self)@.0.update(key as int, true),
            final(self)@.1 == old(self)@.1,
    {
        let ghost c = self.current;
        self.current |= 1 << (key as u16);
        proof {
            lemma_set_bit(c, key as u16, key as u16);
            assert forall|k: int| 0 <= k < 16 implies mask_bit(self.current, k) == (k == key || mask_bit(c, k)) by {
                lemma_set_bit(c, key as u16, k as u16);
            }
            assert(mask_keys(self.current) =~= mask_keys(c).update(key as int, true));
        }
    }

    /// Key `key` goes up.
    pub fn release_key(&mut self, key: u8)
        requires
            key < 16,
        ensures
            final(self)@.0 == old(self)@.0.update(key as int, false),
            final(self)@.1 == old(self)@.1,
    {
        let ghost c = self.current;
        self.current &= !(1 << (key as u16));
        proof {
            lemma_set_bit(c, key as u16, key as u16);
            assert forall|k: int| 0 <= k < 16 implies mask_bit(self.current, k) == (k != key && mask_bit(c, k)) by {
                lemma_set_bit(c, key as u16, k as u16);
            }
            assert(mask_keys(self.current) =~= mask_keys(c).update(key as int, false));
        }
    }

    /// Key `key` is down.
    pub fn is_key_down(&self, key: u8) -> (down: bool)
        requires
            key < 16,
        ensures
            down == self@.0[key as int],
    {
        self.current & (1 << (key as u16)) != 0
    }

    /// Starts a new tick: the keys down now become the keys of the previous tick.
    pub fn tick(&mut self)
        ensures
            final(self)@.0 == old(self)@.0,
            final(self)@.1 == old(self)@.0,
    {
        self.previous = self.current;
    }

    /// None when no key went up since the previous tick; otherwise the
    /// lowest-numbered key that did.
    pub fn just_released(&self) -> (r: Option<u8>)
        ensures
            r == lowest_released_from(self@.0, self@.1, 0),
    {
        let released = self.previous & !self.current;
        let ghost down = self@.0;
        let ghost prev = self@.1;
        proof {
            assert forall|k: int| 0 <= k < 16 implies #[trigger] is_released(down, prev, k)
                == mask_bit(released, k) by {
                lemma_released_bit(self.previous, self.current, k as u16);
            }
        }

        if released == 0 {
            proof {
                assert forall|k: int| 0 <= k < 16 implies !#[trigger] is_released(down, prev, k) by {
                    lemma_zero_has_no_bit(released, k as u16);
                }
                lemma_lowest_none(down, prev, 0);
            }
            None
        } else {
            // The lowest set bit of the mask is the lowest released key.
            let t = released.trailing_zeros();
            proof {
                assert(t < 16);
                assert((released >> (t as u16)) & 1u16 == 1u16);
                lemma_released_bit(self.previous, self.current, t as u16);
                assert forall|j: int| 0 <= j < t implies !#[trigger] is_released(down, prev, j) by {
                    assert((released >> (j as u16)) & 1u16 == 0u16);
                    lemma_released_bit(self.previous, self.current, j as u16);
                }
                lemma_lowest_found(down, prev, 0, t as int);
            }
            Some(t as u8)
        }
    }
}

/// A call made on a keypad.
pub enum KeyEvent {
    Press(u8),
    Release(u8),
    Tick,
}

/// The keys down after `events`, each as `press_key`, `release_key` and
/// `tick` change them, starting from `down`.
pub open spec fn down_after(down: Seq<bool>, events: Seq<KeyEvent>) -> Seq<bool>
    decreases events.len(),
{
    if events.len() == 0 {
        down
    } else {
        let before = down_after(down, events.drop_last());
        match events.last() {
            KeyEvent::Press(k) => before.update(k as int, true),
            KeyEvent::Release(k) => before.update(k as int, false),
            KeyEvent::Tick => before,
        }
    }
}

/// Of the presses and releases of `key` in `events`, the last is a press.
pub open spec fn last_touch_is_press(events: Seq<KeyEvent>, key: u8) -> bool
    decreases events.len(),
{
    if events.len() == 0 {
        false
    } else {
        match events.last() {
            KeyEvent::Press(k) if k == key => true,
            KeyEvent::Release(k) if k == key => false,
            _ => last_touch_is_press(events.drop_last(), key),
        }
    }
}

/// Starting from a fresh keypad, a key is down exactly when its last press
/// came after its last release; ticks and other keys do not matter.
pub proof fn lemma_down_iff_pressed_last(events: Seq<KeyEvent>, key: u8)
    requires
        key < 16,
        forall|j: int|
            0 <= j < events.len() ==> match #[trigger] events[j] {
                KeyEvent::Press(k) => k < 16,
                KeyEvent::Release(k) => k < 16,
                KeyEvent::Tick => true,
            },
    ensures
        down_after(Seq::new(16, |k: int| false), events).len() == 16,
        down_after(Seq::new(16, |k: int| false), events)[key as int] == last_touch_is_press(
            events,
            key,
        ),
    decreases events.len(),
{
    if events.len() > 0 {
        let rest = events.drop_last();
        assert forall|j: int| 0 <= j < rest.len() implies match #[trigger] rest[j] {
            KeyEvent::Press(k) => k < 16,
            KeyEvent::Release(k) => k < 16,
            KeyEvent::Tick => true,
        } by {
            assert(rest[j] == events[j]);
        }
        lemma_down_iff_pressed_last(rest, key);
        assert(events.last() == events[events.len() - 1]);
    }
}

/// Right after a tick no key counts as released, searching from key `k` on.
pub proof fn lemma_tick_clears_lowest(down: Seq<bool>, k: int)
    ensures
        lowest_released_from(down, down, k) == None::<u8>,
    decreases 16 - k,
{
    if 0 <= k < 16 {
        lemma_tick_clears_lowest(down, k + 1);
    }
}

} // verus!
