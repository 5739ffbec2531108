use vstd::prelude::*;
use vstd::string::*;
use crate::errors::ClientError;
use crate::text::{ci_eq, ci_matches};

verus! {

/// Access level of a custodian.  Stored locally as a lower-case label
/// and encoded as a small integer on the wire.
#[derive(Debug, Clone, Copy, PartialEq, Eq, Structural)]
pub enum Role {
    Owner,
    Writer,
    Reader,
    NoRole,
}

impl Role {
    /// The integer the contract expects for this role.
    pub open spec fn wire_spec(self) -> u8 {
        match self {
            Role::Owner => 0,
            Role::Writer => 1,
            Role::Reader => 2,
            Role::NoRole => 3,
        }
    }

    pub fn to_wire(self) -> (c: u8)
        ensures
            c == self.wire_spec(),
    {
        match self {
            Role::Owner => 0,
            Role::Writer => 1,
            Role::Reader => 2,
            Role::NoRole => 3,
        }
    }

    /// The role a wire integer decodes to; unknown integers are
    /// rejected rather than mapped to a default.
    pub open spec fn from_wire_spec(c: u8) -> Option<Role> {
        if c == 0 {
            Option::Some(Role::Owner)
        } else if c == 1 {
            Option::Some(Role::Writer)
        } else if c == 2 {
            Option::Some(Role::Reader)
        } else if c == 3 {
            Option::Some(Role::NoRole)
        } else {
            Option::None
        }
    }

    pub fn from_wire(c: u8) -> (r: Option<Role>)
        ensures
            r == Role::from_wire_spec(c),
    {
        if c == 0 {
            Option::Some(Role::Owner)
        } else if c == 1 {
            Option::Some(Role::Writer)
        } else if c == 2 {
            Option::Some(Role::Reader)
        } else if c == 3 {
            Option::Some(Role::NoRole)
        } else {
            Option::None
        }
    }

    /// The lower-case label under which the role is persisted.
    pub open spec fn label_spec(self) -> Seq<char> {
        match self {
            Role::Owner => "owner"@,
            Role::Writer => "writer"@,
            Role::Reader => "reader"@,
            Role::NoRole => "none"@,
        }
    }

    pub fn label(self) -> (s: String)
        ensures
            s@ == self.label_spec(),
    {
        match self {
            Role::Owner => String::from_str("owner"),
            Role::Writer => String::from_str("writer"),
            Role::Reader => String::from_str("reader"),
            Role::NoRole => String::from_str("none"),
        }
    }

    /// The role a label names, compared without regard to ASCII case;
    /// anything else is rejected.
    pub open spec fn of_label_spec(s: Seq<char>) -> Option<Role> {
        if ci_matches(s, "owner"@) {
            Option::Some(Role::Owner)
        } else if ci_matches(s, "writer"@) {
            Option::Some(Role::Writer)
        } else if ci_matches(s, "reader"@) {
            Option::Some(Role::Reader)
        } else if ci_matches(s, "none"@) {
            Option::Some(Role::NoRole)
        } else {
            Option::None
        }
    }

    pub fn parse_role(s: &str) -> (r: Result<Role, ClientError>)
        ensures
            match r {
                Ok(role) => Role::of_label_spec(s@) == Option::Some(role),
                Err(e) => {
                    &&& Role::of_label_spec(s@) is None
                    &&& e matches ClientError::InvalidRole(t) && t@ == s@
                },
            },
    {
        if ci_eq(s, "owner") {
            Ok(Role::Owner)
        } else if ci_eq(s, "writer") {
            Ok(Role::Writer)
        } else if ci_eq(s, "reader") {
            Ok(Role::Reader)
        } else if ci_eq(s, "none") {
            Ok(Role::NoRole)
        } else {
            Err(ClientError::InvalidRole(String::from_str(s)))
        }
    }

    /// The wire mapping is bidirectional: decoding what a role encodes
    /// to gives the role back.
    pub proof fn lemma_wire_roundtrip(self)
        ensures
            Role::from_wire_spec(self.wire_spec()) == Option::Some(self),
    {
    }

    /// The label mapping is bidirectional: parsing the persisted label
    /// of a role gives the role back.
    pub proof fn lemma_label_roundtrip(self)
        ensures
            Role::of_label_spec(self.label_spec()) == Option::Some(self),
    {
        reveal_strlit("owner");
        reveal_strlit("writer");
        reveal_strlit("reader");
        reveal_strlit("none");
        match self {
            Role::Owner => {
                assert(ci_matches("owner"@, "owner"@));
            },
            Role::Writer => {
                assert(crate::text::lower_int("writer"@[0] as int) != "owner"@[0] as int);
                assert(ci_matches("writer"@, "writer"@));
            },
            Role::Reader => {
                assert(crate::text::lower_int("reader"@[0] as int) != "writer"@[0] as int);
                assert(ci_matches("reader"@, "reader"@));
            },
            Role::NoRole => {
                assert(ci_matches("none"@, "none"@));
            },
        }
    }
}

} // verus!
