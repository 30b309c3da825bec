//! Edge detection for polled keys: the host polls which keys are held
//! down each period and hands the raw states in; the detector computes
//! which keys were freshly pressed since the previous poll.

use vstd::prelude::*;

verus! {

/// The state of one watched key.
#[derive(Clone, Copy, PartialEq, Eq, Structural, Debug)]
pub struct KeyState {
    /// The key is currently held down.
    pub is_down: bool,
    /// The key went down during the most recent poll.
    pub just_pressed: bool,
}

/// Edge detection over a fixed set of watched keys, polled by the host
/// every `period` microseconds.
pub struct KeyPressDetector {
    /// The state of every watched key, in the fixed order of the set.
    pub keys: Vec<KeyState>,
    /// The polling period in microseconds.
    pub period: u64,
}

impl KeyPressDetector {
    /// A detector for `n_keys` keys, all initially up, polled every
    /// `period` microseconds.
    pub fn new(n_keys: usize, period: u64) -> (d: KeyPressDetector)
        ensures
            d.keys@.len() == n_keys,
            forall|i: int|
                0 <= i < n_keys ==> (#[trigger] d.keys@[i]) == (KeyState {
                    is_down: false,
                    just_pressed: false,
                }),
            d.period == period,
    {
        let mut keys: Vec<KeyState> = Vec::new();
        let mut i: usize = 0;
        while i < n_keys
            invariant
                i <= n_keys,
                keys@.len() == i,
                forall|j: int|
                    0 <= j < i ==> (#[trigger] keys@[j]) == (KeyState {
                        is_down: false,
                        just_pressed: false,
                    }),
            decreases n_keys - i,
        {
            keys.push(KeyState { is_down: false, just_pressed: false });
            i = i + 1;
        }
        KeyPressDetector { keys, period }
    }

    /// Fold one poll into the detector: a key is freshly pressed exactly
    /// when it is down now and was up at the previous poll.
    pub fn update(&mut self, pressed: &Vec<bool>)
        requires
            pressed@.len() == old(self).keys@.len(),
        ensures
            final(self).keys@.len() == old(self).keys@.len(),
            final(self).period == old(self).period,
            forall|i: int|
                0 <= i < pressed@.len() ==> (#[trigger] final(self).keys@[i]) == (KeyState {
                    is_down: pressed@[i],
                    just_pressed: pressed@[i] && !old(self).keys@[i].is_down,
                }),
    {
        let n = self.keys.len();
        let mut i: usize = 0;
        while i < n
            invariant
                n == old(self).keys@.len(),
                pressed@.len() == n,
                self.keys@.len() == n,
                self.period == old(self).period,
                i <= n,
                forall|j: int|
                    0 <= j < i ==> (#[trigger] self.keys@[j]) == (KeyState {
                        is_down: pressed@[j],
                        just_pressed: pressed@[j] && !old(self).keys@[j].is_down,
                    }),
                forall|j: int| i <= j < n ==> (#[trigger] self.keys@[j]) == old(self).keys@[j],
            decreases n - i,
        {
            let was_down = self.keys[i].is_down;
            let is_pressed = pressed[i];
            self.keys.set(
                i,
                KeyState { is_down: is_pressed, just_pressed: is_pressed && !was_down },
            );
            i = i + 1;
        }
    }
}

} // verus!
