//! Identifier handling: deriving an actor's logical name from a declaration
//! identifier, and case-converting request identifiers into method names.

use vstd::prelude::*;
use vstd::string::*;

verus! {

/// The reserved suffix that marks a message-set declaration.
pub open spec fn msg_suffix() -> Seq<char> {
    seq!['M', 's', 'g']
}

/// True when an identifier ends with the reserved message-set suffix.
pub open spec fn ends_with_msg(s: Seq<char>) -> bool {
    s.len() >= 3 && s.subrange(s.len() - 3, s.len() as int) == msg_suffix()
}

/// The actor's logical name derived from a message-set identifier: the
/// identifier with the reserved suffix stripped.
pub open spec fn strip_msg(s: Seq<char>) -> Seq<char> {
    s.take(s.len() - 3)
}

/// How a declaration identifier yields an actor's logical name: a message-set
/// identifier has the reserved suffix stripped, a state identifier is taken
/// verbatim.
pub enum ID {
    RemoveMsg(String),
    Direct(String),
}

/// The logical name an identifier derives, if any: `RemoveMsg` succeeds only
/// when the identifier carries the reserved suffix, `Direct` always succeeds.
pub open spec fn spec_actor_name(id: &ID) -> Option<Seq<char>> {
    match id {
        ID::RemoveMsg(v) => if ends_with_msg(v@) {
            Some(strip_msg(v@))
        } else {
            None
        },
        ID::Direct(v) => Some(v@),
    }
}

pub open spec fn opt_string_view(r: &Option<String>) -> Option<Seq<char>> {
    match r {
        Some(s) => Some(s@),
        None => None,
    }
}

/// Derives the actor's logical name from an identifier: strips the reserved
/// suffix from a message-set identifier (rejecting one that lacks it), and
/// passes a state identifier through verbatim.
pub fn get_actor_name(id: ID) -> (r: Option<String>)
    ensures
        opt_string_view(&r) == spec_actor_name(&id),
{
    match id {
        ID::RemoveMsg(v) => {
            let n = v.as_str().unicode_len();
            if n >= 3 {
                let c1 = v.as_str().get_char(n - 3);
                let c2 = v.as_str().get_char(n - 2);
                let c3 = v.as_str().get_char(n - 1);
                if c1 == 'M' && c2 == 's' && c3 == 'g' {
                    let stripped = v.as_str().substring_char(0, n - 3);
                    proof {
                        assert(v@.subrange(v@.len() - 3, v@.len() as int) =~= msg_suffix());
                        assert(stripped@ =~= strip_msg(v@));
                    }
                    Some(stripped.to_owned())
                } else {
                    proof {
                        if ends_with_msg(v@) {
                            assert(v@.subrange(v@.len() - 3, v@.len() as int)[0] == v@[v@.len() - 3]);
                            assert(v@.subrange(v@.len() - 3, v@.len() as int)[1] == v@[v@.len() - 2]);
                            assert(v@.subrange(v@.len() - 3, v@.len() as int)[2] == v@[v@.len() - 1]);
                        }
                    }
                    None
                }
            } else {
                None
            }
        }
        ID::Direct(v) => Some(v),
    }
}

/// The snake-case form of an identifier, as the outside case converter
/// computes it; a function of the identifier's characters alone.
pub uninterp spec fn snake_of(s: Seq<char>) -> Seq<char>;

/// Relies on inflector's `to_snake_case`: case-converts an identifier into a
/// call-style method name, deterministically from the characters alone.
#[verifier::external_body]
pub(crate) fn to_snake(s: &str) -> (r: String)
    ensures
        r@ == snake_of(s@),
{
    inflector::cases::snakecase::to_snake_case(s)
}

} // verus!
