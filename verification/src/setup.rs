//! The answers the operator types while the database connection is set up
//! on the first start, and how failed user writes are reported.
use vstd::prelude::*;
use crate::schemas::UserRead;
use crate::text::{chars_of, parse_i32_range, parse_i32_spec};
use crate::validation::{is_ipv4, is_ipv4_text, port_ok};

verus! {

/// The port typed for the database: a decimal `i32` between 0 and 65535.
pub open spec fn port_input_spec(text: Seq<char>) -> Option<u16> {
    match parse_i32_spec(text) {
        Some(p) => if port_ok(p) {
            Some(p as u16)
        } else {
            None
        },
        None => None,
    }
}

/// Reads the port typed for the database; `None` asks again.
pub fn port_from_input(text: &str) -> (r: Option<u16>)
    ensures
        r == port_input_spec(text@),
{
    let cs = chars_of(text);
    match parse_i32_range(&cs, 0, cs.len()) {
        Some(p) => {
            proof {
                assert(cs@.subrange(0, cs@.len() as int) =~= text@);
            }
            if 0 <= p && p <= 65535 {
                Some(p as u16)
            } else {
                None
            }
        },
        None => {
            proof {
                assert(cs@.subrange(0, cs@.len() as int) =~= text@);
            }
            None
        },
    }
}

/// The database address typed must be an IPv4 address.
pub fn address_input_ok(text: &str) -> (r: bool)
    ensures
        r == is_ipv4_text(text@),
{
    is_ipv4(text)
}

/// The operator's answer to "is the configuration right?".
#[derive(Clone, Copy, Debug, PartialEq, Eq)]
pub enum Answer {
    Yes,
    No,
    /// Anything else: the question is asked again.
    Other,
}

/// `y` or `Y` is yes, `n` or `N` is no (the answer is compared in lower case).
pub open spec fn answer_spec(text: Seq<char>) -> Answer {
    if text == seq!['y'] || text == seq!['Y'] {
        Answer::Yes
    } else if text == seq!['n'] || text == seq!['N'] {
        Answer::No
    } else {
        Answer::Other
    }
}

/// Reads the operator's yes-or-no answer.
pub fn read_answer(text: &str) -> (r: Answer)
    ensures
        r == answer_spec(text@),
{
    let cs = chars_of(text);
    if cs.len() != 1 {
        proof {
            assert(text@.len() != 1);
            assert(text@ != seq!['y']);
            assert(text@ != seq!['Y']);
            assert(text@ != seq!['n']);
            assert(text@ != seq!['N']);
        }
        return Answer::Other;
    }
    let c = cs[0];
    proof {
        assert(text@ =~= seq![c]);
    }
    if c == 'y' || c == 'Y' {
        Answer::Yes
    } else if c == 'n' || c == 'N' {
        Answer::No
    } else {
        proof {
            assert(seq![c] != seq!['y']) by {
                assert(seq![c][0] != seq!['y'][0]);
            }
            assert(seq![c] != seq!['Y']) by {
                assert(seq![c][0] != seq!['Y'][0]);
            }
            assert(seq![c] != seq!['n']) by {
                assert(seq![c][0] != seq!['n'][0]);
            }
            assert(seq![c] != seq!['N']) by {
                assert(seq![c][0] != seq!['N'][0]);
            }
        }
        Answer::Other
    }
}

/// Why writing a user failed.
#[derive(Clone, Copy, Debug, PartialEq, Eq)]
pub enum UserWriteError {
    /// The name is taken (MySQL error 1062, duplicate entry).
    NameTaken,
    /// Any other database error.
    Database,
}

/// The MySQL code of a duplicate entry.
pub open spec fn duplicate_code() -> Seq<char> {
    seq!['1', '0', '6', '2']
}

/// Classifies a failed user write by the database's error code, if it gave one.
pub fn user_write_error(code: Option<&str>) -> (r: UserWriteError)
    ensures
        r == (if code matches Some(c) && c@ == duplicate_code() {
            UserWriteError::NameTaken
        } else {
            UserWriteError::Database
        }),
{
    match code {
        None => UserWriteError::Database,
        Some(c) => {
            let cs = chars_of(c);
            if cs.len() == 4 && cs[0] == '1' && cs[1] == '0' && cs[2] == '6' && cs[3] == '2' {
                proof {
                    assert(c@ =~= duplicate_code());
                }
                UserWriteError::NameTaken
            } else {
                proof {
                    if c@ == duplicate_code() {
                        assert(cs@ == duplicate_code());
                        assert(cs@[0] == '1' && cs@[1] == '0' && cs@[2] == '6' && cs@[3] == '2');
                    }
                }
                UserWriteError::Database
            }
        },
    }
}

/// What the API tells of a user: id and name, never the password.
#[derive(Clone, Debug)]
pub struct UserSummary {
    pub id: i32,
    pub name: String,
}

/// The public part of a user record.
pub fn user_summary(user: &UserRead) -> (r: UserSummary)
    ensures
        r.id == user.id,
        r.name@ == user.username@,
{
    UserSummary { id: user.id, name: user.username.clone() }
}

} // verus!
