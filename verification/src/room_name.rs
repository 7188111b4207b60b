//! Room names.

use crate::random::random_usize;
use crate::text::{decimal, is_blank, is_blank_str, push_digits};
use vstd::prelude::*;
use vstd::string::StringExecFns;

verus! {

/// The label shown for a room. It is never blank: where a blank one is asked
/// for, a generated one takes its place.
#[derive(Debug, PartialEq, Eq)]
pub struct RoomName {
    inner: String,
}

/// The name generated from the number `n`: `room-` and `n` in decimal.
pub open spec fn generated_name(n: nat) -> Seq<char> {
    seq!['r', 'o', 'o', 'm', '-'] + decimal(n)
}

/// The name that a room gets when `s` is asked for and `n` is the number at
/// hand for a generated one: `s` itself unless it is blank.
pub open spec fn name_for(s: Seq<char>, n: nat) -> Seq<char> {
    if is_blank(s) {
        generated_name(n)
    } else {
        s
    }
}

/// Whatever is asked for, the name that comes is neither empty nor blank: it
/// is the name asked for unless that is blank, and a generated one if it is.
pub proof fn lemma_name_not_blank(s: Seq<char>, n: nat)
    ensures
        name_for(s, n).len() > 0,
        !is_blank(name_for(s, n)),
        !is_blank(s) ==> name_for(s, n) == s,
        is_blank(s) ==> name_for(s, n) == generated_name(n),
{
    if is_blank(s) {
        assert(generated_name(n)[0] == 'r');
    }
}

impl View for RoomName {
    type V = Seq<char>;

    closed spec fn view(&self) -> Seq<char> {
        self.inner@
    }
}

impl Clone for RoomName {
    /// A name that reads the same.
    fn clone(&self) -> (r: Self)
        ensures
            r@ == self@,
    {
        proof {
            use_type_invariant(self);
        }
        RoomName { inner: self.inner.clone() }
    }
}

impl RoomName {
    /// No room name is blank.
    #[verifier::type_invariant]
    spec fn not_blank(self) -> bool {
        !is_blank(self.inner@)
    }

    /// The name `s`, or, where `s` is blank, a generated one from a number
    /// drawn at random.
    pub fn from(s: &str) -> (r: Self)
        ensures
            exists|n: usize| r@ == name_for(s@, n as nat),
    {
        if !is_blank_str(s) {
            assert(s@ == name_for(s@, 0usize as nat));
            return RoomName { inner: String::from_str(s) };
        }
        let n = random_usize();
        Self::with_fallback(s, n)
    }

    /// The name `s`, or, where `s` is blank, the one generated from `n`.
    pub fn with_fallback(s: &str, n: usize) -> (r: Self)
        ensures
            r@ == name_for(s@, n as nat),
    {
        if !is_blank_str(s) {
            return RoomName { inner: String::from_str(s) };
        }
        let mut inner = String::from_str("room-");
        proof {
            reveal_strlit("room-");
            assert(inner@ =~= seq!['r', 'o', 'o', 'm', '-']);
        }
        push_digits(&mut inner, n as u64, 10);
        proof {
            lemma_name_not_blank(s@, n as nat);
        }
        RoomName { inner }
    }

    /// The name as text.
    pub fn as_str(&self) -> (s: &str)
        ensures
            s@ == self@,
            !is_blank(s@),
    {
        proof {
            use_type_invariant(self);
        }
        self.inner.as_str()
    }

    /// The name as text of its own.
    pub fn to_string(&self) -> (s: String)
        ensures
            s@ == self@,
            !is_blank(s@),
    {
        proof {
            use_type_invariant(self);
        }
        self.inner.clone()
    }
}

} // verus!
