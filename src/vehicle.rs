//! The state of a vehicle, and what it says of itself.
use vstd::prelude::*;
use vstd::string::StringExecFns;

verus! {

/// What a vehicle is doing.
pub enum VehicleStatus {
    Parked,
    Driving { speed: u32 },
    BrokenDown(String),
}

/// The decimal digit `d` as a character.
pub open spec fn digit_char(d: nat) -> char {
    if d == 0 {
        '0'
    } else if d == 1 {
        '1'
    } else if d == 2 {
        '2'
    } else if d == 3 {
        '3'
    } else if d == 4 {
        '4'
    } else if d == 5 {
        '5'
    } else if d == 6 {
        '6'
    } else if d == 7 {
        '7'
    } else if d == 8 {
        '8'
    } else {
        '9'
    }
}

/// `n` in decimal, without leading zeros.
pub open spec fn decimal(n: nat) -> Seq<char>
    decreases n,
{
    if n < 10 {
        seq![digit_char(n)]
    } else {
        decimal(n / 10).push(digit_char(n % 10))
    }
}

fn digit_str(d: u32) -> (r: &'static str)
    requires
        d < 10,
    ensures
        r@ == seq![digit_char(d as nat)],
{
    proof {
        reveal_strlit("0");
        reveal_strlit("1");
        reveal_strlit("2");
        reveal_strlit("3");
        reveal_strlit("4");
        reveal_strlit("5");
        reveal_strlit("6");
        reveal_strlit("7");
        reveal_strlit("8");
        reveal_strlit("9");
    }
    let r = match d {
        0 => "0",
        1 => "1",
        2 => "2",
        3 => "3",
        4 => "4",
        5 => "5",
        6 => "6",
        7 => "7",
        8 => "8",
        _ => "9",
    };
    assert(r@ =~= seq![digit_char(d as nat)]);
    r
}

/// `n` written in decimal.
pub fn decimal_string(n: u32) -> (r: String)
    ensures
        r@ == decimal(n as nat),
    decreases n,
{
    if n < 10 {
        String::from_str(digit_str(n))
    } else {
        let mut s = decimal_string(n / 10);
        s.append(digit_str(n % 10));
        s
    }
}

impl VehicleStatus {
    /// What [`VehicleStatus::description`] says.
    pub open spec fn describe(&self) -> Seq<char> {
        match self {
            VehicleStatus::Parked => "The vehicle is parked."@,
            VehicleStatus::Driving { speed } => "The vehicle is driving at "@ + decimal(
                *speed as nat,
            ) + " km/h."@,
            VehicleStatus::BrokenDown(reason) => "The vehicle is broken down: "@ + reason@ + "."@,
        }
    }

    /// A parked or driving vehicle is operational; a broken one is not.
    pub fn is_operational(&self) -> (r: bool)
        ensures
            r == !(self is BrokenDown),
    {
        match self {
            VehicleStatus::Parked => true,
            VehicleStatus::Driving { .. } => true,
            VehicleStatus::BrokenDown(_) => false,
        }
    }

    /// One sentence on the vehicle's state.
    pub fn description(&self) -> (r: String)
        ensures
            r@ == self.describe(),
    {
        match self {
            VehicleStatus::Parked => String::from_str("The vehicle is parked."),
            VehicleStatus::Driving { speed } => {
                let mut s = String::from_str("The vehicle is driving at ");
                let digits = decimal_string(*speed);
                s.append(digits.as_str());
                s.append(" km/h.");
                s
            },
            VehicleStatus::BrokenDown(reason) => {
                let mut s = String::from_str("The vehicle is broken down: ");
                s.append(reason.as_str());
                s.append(".");
                s
            },
        }
    }
}

} // verus!
