use std::sync::atomic::{AtomicBool, Ordering};
use std::sync::Arc;
use vstd::prelude::*;

verus! {

/// The keys the global listener reports.
#[derive(Debug, Clone, Copy, PartialEq, Eq, Structural)]
pub enum PadKey {
    Q,
    W,
    E,
    R,
    A,
    S,
    D,
    F,
    Z,
    X,
    C,
    V,
    Space,
}

/// Number of keys in `PadKey`.
pub const PAD_KEY_COUNT: usize = 13;

/// The key at position `i` of the pad layout: three rows of four, then space.
pub open spec fn pad_key_at(i: int) -> PadKey {
    if i == 0 { PadKey::Q } else if i == 1 { PadKey::W } else if i == 2 { PadKey::E }
    else if i == 3 { PadKey::R } else if i == 4 { PadKey::A } else if i == 5 { PadKey::S }
    else if i == 6 { PadKey::D } else if i == 7 { PadKey::F } else if i == 8 { PadKey::Z }
    else if i == 9 { PadKey::X } else if i == 10 { PadKey::C } else if i == 11 { PadKey::V }
    else { PadKey::Space }
}

pub open spec fn pad_label(k: PadKey) -> Seq<char> {
    match k {
        PadKey::Q => "Q"@,
        PadKey::W => "W"@,
        PadKey::E => "E"@,
        PadKey::R => "R"@,
        PadKey::A => "A"@,
        PadKey::S => "S"@,
        PadKey::D => "D"@,
        PadKey::F => "F"@,
        PadKey::Z => "Z"@,
        PadKey::X => "X"@,
        PadKey::C => "C"@,
        PadKey::V => "V"@,
        PadKey::Space => "SPACE"@,
    }
}

impl PadKey {
    /// The name reported for the key.
    pub fn label(self) -> (r: &'static str)
        ensures
            r@ == pad_label(self),
    {
        match self {
            PadKey::Q => "Q",
            PadKey::W => "W",
            PadKey::E => "E",
            PadKey::R => "R",
            PadKey::A => "A",
            PadKey::S => "S",
            PadKey::D => "D",
            PadKey::F => "F",
            PadKey::Z => "Z",
            PadKey::X => "X",
            PadKey::C => "C",
            PadKey::V => "V",
            PadKey::Space => "SPACE",
        }
    }

    /// Space silences every voice.
    pub fn is_global_stop(self) -> (r: bool)
        ensures
            r == (self == PadKey::Space),
    {
        match self {
            PadKey::Space => true,
            _ => false,
        }
    }

    fn at(i: usize) -> (r: PadKey)
        ensures
            r == pad_key_at(i as int),
    {
        if i == 0 { PadKey::Q } else if i == 1 { PadKey::W } else if i == 2 { PadKey::E }
        else if i == 3 { PadKey::R } else if i == 4 { PadKey::A } else if i == 5 { PadKey::S }
        else if i == 6 { PadKey::D } else if i == 7 { PadKey::F } else if i == 8 { PadKey::Z }
        else if i == 9 { PadKey::X } else if i == 10 { PadKey::C } else if i == 11 { PadKey::V }
        else { PadKey::Space }
    }
}

/// Global hotkey state: a flag the listener reads without locking, and the
/// keys currently registered.
pub struct HotkeyRegistry {
    pub enabled: Arc<AtomicBool>,
    pub registrations: Vec<String>,
}

impl HotkeyRegistry {
    /// Listening enabled, nothing registered yet.
    pub fn new() -> (r: HotkeyRegistry)
        ensures
            r.registrations@.len() == 0,
    {
        HotkeyRegistry { enabled: Arc::new(AtomicBool::new(true)), registrations: Vec::new() }
    }

    /// Publishes the listening flag, then registers every pad key when
    /// enabling with none registered, or drops all registrations when
    /// disabling.
    pub fn set_listening(&mut self, state: bool)
        ensures
            state && old(self).registrations@.len() == 0 ==> final(self).registrations@.len()
                == PAD_KEY_COUNT && forall|i: int| 0 <= i < PAD_KEY_COUNT ==> (
            #[trigger] final(self).registrations@[i])@ == pad_label(pad_key_at(i)),
            state && old(self).registrations@.len() > 0 ==> final(self).registrations@
                == old(self).registrations@,
            !state ==> final(self).registrations@.len() == 0,
    {
        self.enabled.store(state, Ordering::SeqCst);
        if state {
            if self.registrations.len() == 0 {
                let mut i: usize = 0;
                while i < PAD_KEY_COUNT
                    invariant
                        i <= PAD_KEY_COUNT,
                        self.registrations@.len() == i,
                        forall|j: int| 0 <= j < i ==> (#[trigger] self.registrations@[j])@
                            == pad_label(pad_key_at(j)),
                    decreases PAD_KEY_COUNT - i,
                {
                    let k = PadKey::at(i);
                    self.registrations.push(k.label().to_owned());
                    i = i + 1;
                }
            }
        } else {
            self.registrations.clear();
        }
    }
}

} // verus!
