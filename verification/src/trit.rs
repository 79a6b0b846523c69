use vstd::prelude::*;

verus! {

/// Ternary digit: -1, 0, or +1.
#[derive(Debug, Clone, Copy, PartialEq, Eq, Structural)]
pub enum Trit {
    MinusOne,
    Zero,
    PlusOne,
}

/// The integer that a trit stands for.
pub open spec fn trit_value(t: Trit) -> int {
    match t {
        Trit::MinusOne => -1,
        Trit::Zero => 0,
        Trit::PlusOne => 1,
    }
}

/// The trit that carries the sign of an integer.
pub open spec fn sign_trit(v: int) -> Trit {
    if v < 0 {
        Trit::MinusOne
    } else if v == 0 {
        Trit::Zero
    } else {
        Trit::PlusOne
    }
}

impl Trit {
    pub fn value(&self) -> (r: i8)
        ensures
            r == trit_value(*self),
    {
        match self {
            Trit::MinusOne => -1,
            Trit::Zero => 0,
            Trit::PlusOne => 1,
        }
    }

    pub fn from_value(v: i8) -> (t: Trit)
        ensures
            t == sign_trit(v as int),
    {
        if v <= -1 {
            Trit::MinusOne
        } else if v == 0 {
            Trit::Zero
        } else {
            Trit::PlusOne
        }
    }
}

impl From<i8> for Trit {
    fn from(v: i8) -> (t: Trit) {
        Trit::from_value(v)
    }
}

impl vstd::std_specs::convert::FromSpecImpl<i8> for Trit {
    open spec fn obeys_from_spec() -> bool {
        true
    }

    open spec fn from_spec(v: i8) -> Trit {
        sign_trit(v as int)
    }
}

impl From<Trit> for i8 {
    fn from(t: Trit) -> (r: i8) {
        t.value()
    }
}

impl vstd::std_specs::convert::FromSpecImpl<Trit> for i8 {
    open spec fn obeys_from_spec() -> bool {
        true
    }

    open spec fn from_spec(t: Trit) -> i8 {
        trit_value(t) as i8
    }
}

/// A trit's value lies in {-1, 0, 1}.
pub proof fn lemma_value_range(t: Trit)
    ensures
        -1 <= trit_value(t) <= 1,
{
}

/// Converting a trit to its value and back gives the same trit.
pub proof fn lemma_from_value_of_value(t: Trit)
    ensures
        sign_trit(trit_value(t)) == t,
{
}

/// Converting an integer to a trit keeps its sign: the trit's value is the sign of the integer.
pub proof fn lemma_value_of_from_value(v: int)
    ensures
        trit_value(sign_trit(v)) == (if v < 0 { -1int } else if v == 0 { 0int } else { 1int }),
{
}

} // verus!
