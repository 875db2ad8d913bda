//! The decision at startup on whether the process may probe.

use vstd::prelude::*;
use crate::text::chars_of;

verus! {

/// What the name of the user who runs the process allows.
#[derive(Clone, Copy, Debug, PartialEq, Eq, Structural)]
pub enum Privilege {
    /// The user is `root`: the sweep may run.
    Granted,
    /// The user is someone else: the process asks for more privilege and
    /// ends.
    Escalate,
    /// The user is not known: the process ends.
    Unknown,
}

/// What a user name allows; `None` stands for a name that could not be had.
pub open spec fn privilege_of(user: Option<Seq<char>>) -> Privilege {
    match user {
        None => Privilege::Unknown,
        Some(name) => if name == seq!['r', 'o', 'o', 't'] {
            Privilege::Granted
        } else {
            Privilege::Escalate
        },
    }
}

/// Decides from the name of the user whether the sweep may run.
pub fn check_privilege(user: Option<&str>) -> (p: Privilege)
    ensures
        p == privilege_of(
            match user {
                Some(name) => Some(name@),
                None => None,
            },
        ),
{
    match user {
        None => Privilege::Unknown,
        Some(name) => {
            let v = chars_of(name);
            if v.len() == 4 && v[0] == 'r' && v[1] == 'o' && v[2] == 'o' && v[3] == 't' {
                assert(v@ =~= seq!['r', 'o', 'o', 't']);
                Privilege::Granted
            } else {
                Privilege::Escalate
            }
        },
    }
}

impl Privilege {
    /// The code that the process ends with, where it does not go on: 1 after
    /// asking for more privilege, 2 where the user is not known.
    pub fn exit_code(&self) -> (code: Option<i32>)
        ensures
            code == (match *self {
                Privilege::Granted => None::<i32>,
                Privilege::Escalate => Some(1i32),
                Privilege::Unknown => Some(2i32),
            }),
    {
        match self {
            Privilege::Granted => None,
            Privilege::Escalate => Some(1),
            Privilege::Unknown => Some(2),
        }
    }
}

} // verus!
