//! Camelot wheel keys: 12 numbers, each in a minor (`A`) and a major (`B`) mode.
use vstd::prelude::*;

use crate::Error;

verus! {

/// Whether a key is minor or major.
#[derive(Clone, Copy, Debug, PartialEq, Eq, Structural)]
pub enum KeyMode {
    Minor,
    Major,
}

/// A position on the Camelot wheel: a number in `1..=12` and a mode.
#[derive(Clone, Copy, Debug, PartialEq, Eq, Structural)]
pub struct CamelotKey {
    number: u8,
    mode: KeyMode,
}

/// The Camelot number of model class `class` (`0..=11` minor, `12..=23` major).
pub open spec fn class_number(class: int) -> int {
    if class < 12 {
        class + 1
    } else {
        class - 11
    }
}

/// The mode of model class `class`.
pub open spec fn class_mode(class: int) -> KeyMode {
    if class < 12 {
        KeyMode::Minor
    } else {
        KeyMode::Major
    }
}

/// The model class of the key with Camelot number `number` and mode `mode`.
pub open spec fn key_class(number: int, mode: KeyMode) -> int {
    match mode {
        KeyMode::Minor => number - 1,
        KeyMode::Major => number + 11,
    }
}

/// The decimal digit character of `d` (`0 <= d < 10`).
pub open spec fn digit_char(d: nat) -> char {
    (48 + d) as char
}

/// The decimal notation of `n`, without leading zeros.
pub open spec fn decimal(n: nat) -> Seq<char>
    decreases n,
{
    if n < 10 {
        seq![digit_char(n)]
    } else {
        decimal(n / 10).push(digit_char(n % 10))
    }
}

/// The letter of a mode on the Camelot wheel.
pub open spec fn mode_letter(mode: KeyMode) -> char {
    match mode {
        KeyMode::Minor => 'A',
        KeyMode::Major => 'B',
    }
}

/// The Camelot label of a key: its number in decimal, then its mode letter.
pub open spec fn camelot_label(number: nat, mode: KeyMode) -> Seq<char> {
    decimal(number).push(mode_letter(mode))
}

impl CamelotKey {
    #[verifier::type_invariant]
    spec fn number_in_range(self) -> bool {
        1 <= self.number <= 12
    }

    /// The Camelot number of the key.
    pub closed spec fn key_number(self) -> u8 {
        self.number
    }

    /// The mode of the key.
    pub closed spec fn key_mode(self) -> KeyMode {
        self.mode
    }

    /// Builds the key with Camelot number `number` and mode `mode`; numbers
    /// outside `1..=12` are refused.
    pub fn new(number: u8, mode: KeyMode) -> (result: Result<Self, Error>)
        ensures
            (1 <= number <= 12) <==> result is Ok,
            result matches Ok(key) ==> key.key_number() == number && key.key_mode() == mode,
            result matches Err(e) ==> e is InvalidModelOutput,
    {
        if number < 1 || number > 12 {
            let mut message = String::from_str("Camelot number ");
            message.append(number.to_string().as_str());
            message.append(" is outside 1..=12");
            return Err(Error::InvalidModelOutput(message));
        }
        Ok(CamelotKey { number, mode })
    }

    /// The key of model class `class`: classes `0..=11` are the minor keys
    /// `1A..=12A`, classes `12..=23` the major keys `1B..=12B`; any other
    /// class is refused.
    pub fn from_class(class: usize) -> (result: Result<Self, Error>)
        ensures
            (class < 24) <==> result is Ok,
            result matches Ok(key) ==> key.key_number() == class_number(class as int)
                && key.key_mode() == class_mode(class as int),
            result matches Err(e) ==> e is InvalidModelOutput,
            class > 255 ==> (result matches Err(Error::InvalidModelOutput(m)) && m@
                == "key class does not fit u8: out of range integral type conversion attempted"@),
    {
        if class > 255 {
            return Err(
                Error::InvalidModelOutput(
                    String::from_str(
                        "key class does not fit u8: out of range integral type conversion attempted",
                    ),
                ),
            );
        }
        let class: u8 = class as u8;
        if class <= 11 {
            Self::new(class + 1, KeyMode::Minor)
        } else if class <= 23 {
            Self::new(class - 11, KeyMode::Major)
        } else {
            let mut message = String::from_str("key class ");
            message.append(class.to_string().as_str());
            message.append(" is outside 0..=23");
            Err(Error::InvalidModelOutput(message))
        }
    }

    /// The Camelot number of the key, always in `1..=12`.
    pub fn number(self) -> (n: u8)
        ensures
            n == self.key_number(),
            1 <= n <= 12,
    {
        proof {
            use_type_invariant(&self);
        }
        self.number
    }

    /// The mode of the key.
    pub fn mode(self) -> (m: KeyMode)
        ensures
            m == self.key_mode(),
    {
        self.mode
    }

    /// The Camelot label of the key, such as `8A` or `12B`.
    pub fn to_string(&self) -> (label: String)
        ensures
            label@ == camelot_label(self.key_number() as nat, self.key_mode()),
    {
        proof {
            use_type_invariant(self);
        }
        let mut label = String::from_str(number_text(self.number));
        match self.mode {
            KeyMode::Minor => {
                proof {
                    reveal_strlit("A");
                }
                label.append("A");
            },
            KeyMode::Major => {
                proof {
                    reveal_strlit("B");
                }
                label.append("B");
            },
        }
        label
    }
}

/// Every model class names a key, and the key names its class back: the 24
/// classes and the 24 keys of the wheel correspond one to one.
pub proof fn lemma_class_key_round_trip(class: int)
    requires
        0 <= class < 24,
    ensures
        1 <= class_number(class) <= 12,
        key_class(class_number(class), class_mode(class)) == class,
{
}

/// Every key of the wheel is the key of exactly the class `key_class` gives.
pub proof fn lemma_key_class_round_trip(number: int, mode: KeyMode)
    requires
        1 <= number <= 12,
    ensures
        0 <= key_class(number, mode) < 24,
        class_number(key_class(number, mode)) == number,
        class_mode(key_class(number, mode)) == mode,
{
}

/// Distinct keys of the wheel have distinct Camelot labels.
pub proof fn lemma_labels_distinct(n1: nat, m1: KeyMode, n2: nat, m2: KeyMode)
    requires
        1 <= n1 <= 12,
        1 <= n2 <= 12,
        camelot_label(n1, m1) == camelot_label(n2, m2),
    ensures
        n1 == n2,
        m1 == m2,
{
    reveal_with_fuel(decimal, 2);
    let l1 = camelot_label(n1, m1);
    let l2 = camelot_label(n2, m2);
    assert(l1.last() == l2.last());
    assert(l1.drop_last() =~= decimal(n1));
    assert(l2.drop_last() =~= decimal(n2));
    assert(decimal(n1) == decimal(n2));
    if n1 < 10 && n2 < 10 {
        assert(decimal(n1)[0] == decimal(n2)[0]);
    } else if n1 >= 10 && n2 >= 10 {
        assert(decimal(n1)[1] == decimal(n2)[1]);
    } else {
        assert(decimal(n1).len() != decimal(n2).len());
    }
}

/// The decimal notation of a Camelot number.
fn number_text(n: u8) -> (text: &'static str)
    requires
        1 <= n <= 12,
    ensures
        text@ == decimal(n as nat),
{
    proof {
        reveal_with_fuel(decimal, 2);
    }
    match n {
        1 => {
            proof { reveal_strlit("1"); }
            "1"
        },
        2 => {
            proof { reveal_strlit("2"); }
            "2"
        },
        3 => {
            proof { reveal_strlit("3"); }
            "3"
        },
        4 => {
            proof { reveal_strlit("4"); }
            "4"
        },
        5 => {
            proof { reveal_strlit("5"); }
            "5"
        },
        6 => {
            proof { reveal_strlit("6"); }
            "6"
        },
        7 => {
            proof { reveal_strlit("7"); }
            "7"
        },
        8 => {
            proof { reveal_strlit("8"); }
            "8"
        },
        9 => {
            proof { reveal_strlit("9"); }
            "9"
        },
        10 => {
            proof { reveal_strlit("10"); }
            "10"
        },
        11 => {
            proof { reveal_strlit("11"); }
            "11"
        },
        _ => {
            proof { reveal_strlit("12"); }
            "12"
        },
    }
}

} // verus!
