//! Names of players on the game server, and the lowercase identifiers
//! that they are stored under.
use vstd::prelude::*;
use vstd::string::StringSliceAdditionalSpecFns;

use crate::text::{ascii_chars, ascii_string};

verus! {

broadcast use vstd::string::is_ascii_spec_bytes;

/// Whether `c` may occur in a user name: an ASCII letter or digit, `-` or
/// `_`.
pub open spec fn is_name_byte(c: u8) -> bool {
    (48 <= c <= 57) || (65 <= c <= 90) || (97 <= c <= 122) || c == 45 || c == 95
}

/// Whether `b` is a user name: one to thirty name bytes.
pub open spec fn is_user_name(b: Seq<u8>) -> bool {
    1 <= b.len() <= 30 && forall|i: int| 0 <= i < b.len() ==> is_name_byte(#[trigger] b[i])
}

/// The ASCII lowercase form of a byte.
pub open spec fn lower_byte(c: u8) -> u8 {
    if 65 <= c <= 90 {
        (c + 32) as u8
    } else {
        c
    }
}

/// The ASCII lowercase form of bytes.
pub open spec fn lower_bytes(b: Seq<u8>) -> Seq<u8> {
    b.map_values(|c: u8| lower_byte(c))
}

/// The bytes of ASCII characters.
pub open spec fn char_bytes(s: Seq<char>) -> Seq<u8> {
    s.map_values(|c: char| c as u8)
}

/// The bytes are not a user name.
#[derive(Debug)]
pub struct InvalidUserName;

/// A user name as it was written.
#[derive(Debug)]
pub struct UserName(String);

/// A user name in lowercase, under which the user's data is stored.
#[derive(Debug)]
pub struct UserId(String);

impl UserName {
    #[verifier::type_invariant]
    closed spec fn inv(self) -> bool {
        &&& is_user_name(char_bytes(self.0@))
        &&& vstd::utf8::is_ascii_chars(self.0@)
    }

    /// The bytes of the name.
    pub closed spec fn spec_bytes(self) -> Seq<u8> {
        char_bytes(self.0@)
    }

    /// The name made of `bytes`, if they are one to thirty ASCII letters,
    /// digits, `-` or `_`.
    pub fn from_bytes(bytes: &[u8]) -> (r: Result<UserName, InvalidUserName>)
        ensures
            is_user_name(bytes@) ==> (r matches Ok(n) && n.spec_bytes() == bytes@),
            !is_user_name(bytes@) ==> r is Err,
    {
        let n = bytes.len();
        if n == 0 || n > 30 {
            return Err(InvalidUserName);
        }
        let mut i: usize = 0;
        while i < n
            invariant
                n == bytes@.len(),
                i <= n,
                forall|j: int| 0 <= j < i ==> is_name_byte(#[trigger] bytes@[j]),
            decreases n - i,
        {
            let c = bytes[i];
            if !((48 <= c && c <= 57) || (65 <= c && c <= 90) || (97 <= c && c <= 122) || c == 45
                || c == 95) {
                return Err(InvalidUserName);
            }
            i = i + 1;
        }
        let s = ascii_string(bytes);
        proof {
            assert(char_bytes(s@) =~= bytes@);
        }
        Ok(UserName(s))
    }

    /// The bytes of the name.
    pub fn as_bytes(&self) -> (b: &[u8])
        ensures
            b@ == self.spec_bytes(),
            is_user_name(b@),
    {
        proof {
            use_type_invariant(self);
        }
        let s = self.0.as_str();
        proof {
            assert(vstd::string::is_ascii(s));
        }
        let b = s.as_bytes();
        proof {
            assert(b@ =~= char_bytes(self.0@));
        }
        b
    }

    /// The name as written.
    pub fn to_string(&self) -> (s: String)
        ensures
            s@ == ascii_chars(self.spec_bytes()),
    {
        proof {
            use_type_invariant(self);
            assert(ascii_chars(char_bytes(self.0@)) =~= self.0@);
        }
        self.0.clone()
    }

    /// Whether the names are equal, ignoring ASCII case.
    pub fn eq_ignore_ascii_case(&self, other: &UserName) -> (b: bool)
        ensures
            b == (lower_bytes(self.spec_bytes()) == lower_bytes(other.spec_bytes())),
    {
        eq_lower(self.as_bytes(), other.as_bytes())
    }

    /// Whether this name is that of the identifier `id`, ignoring ASCII
    /// case.
    pub fn eq_user_id(&self, id: &UserId) -> (b: bool)
        ensures
            b == (lower_bytes(self.spec_bytes()) == lower_bytes(id.spec_bytes())),
    {
        eq_lower(self.as_bytes(), id.as_lowercase_bytes())
    }
}

/// Whether `a` and `b` are equal, ignoring ASCII case.
pub fn eq_lower(a: &[u8], b: &[u8]) -> (r: bool)
    ensures
        r == (lower_bytes(a@) == lower_bytes(b@)),
{
    if a.len() != b.len() {
        proof {
            assert(lower_bytes(a@).len() != lower_bytes(b@).len());
        }
        return false;
    }
    let n = a.len();
    let mut i: usize = 0;
    while i < n
        invariant
            n == a@.len(),
            n == b@.len(),
            i <= n,
            forall|j: int| 0 <= j < i ==> lower_byte(#[trigger] a@[j]) == lower_byte(b@[j]),
        decreases n - i,
    {
        let x = a[i];
        let y = b[i];
        let lx = if 65 <= x && x <= 90 { x + 32 } else { x };
        let ly = if 65 <= y && y <= 90 { y + 32 } else { y };
        if lx != ly {
            proof {
                assert(lower_bytes(a@)[i as int] != lower_bytes(b@)[i as int]);
            }
            return false;
        }
        i = i + 1;
    }
    proof {
        assert(lower_bytes(a@) =~= lower_bytes(b@));
    }
    true
}

impl Clone for UserName {
    fn clone(&self) -> (c: UserName)
        ensures
            c.spec_bytes() == self.spec_bytes(),
    {
        proof {
            use_type_invariant(self);
        }
        UserName(self.0.clone())
    }
}

impl Clone for UserId {
    fn clone(&self) -> (c: UserId)
        ensures
            c.spec_bytes() == self.spec_bytes(),
    {
        proof {
            use_type_invariant(self);
        }
        UserId(self.0.clone())
    }
}

impl PartialEq for UserName {
    fn eq(&self, other: &UserName) -> (b: bool) {
        self.eq_ignore_ascii_case(other)
    }
}

impl vstd::std_specs::cmp::PartialEqSpecImpl for UserName {
    open spec fn obeys_eq_spec() -> bool {
        true
    }

    open spec fn eq_spec(&self, other: &UserName) -> bool {
        lower_bytes(self.spec_bytes()) == lower_bytes(other.spec_bytes())
    }
}

impl std::str::FromStr for UserName {
    type Err = InvalidUserName;

    fn from_str(s: &str) -> (r: Result<UserName, InvalidUserName>)
        ensures
            is_user_name(s.spec_bytes()) ==> (r matches Ok(n) && n.spec_bytes() == s.spec_bytes()),
            !is_user_name(s.spec_bytes()) ==> r is Err,
    {
        UserName::from_bytes(s.as_bytes())
    }
}

impl UserId {
    #[verifier::type_invariant]
    closed spec fn inv(self) -> bool {
        &&& is_user_name(char_bytes(self.0@))
        &&& vstd::utf8::is_ascii_chars(self.0@)
        &&& lower_bytes(char_bytes(self.0@)) == char_bytes(self.0@)
    }

    /// The bytes of the identifier.
    pub closed spec fn spec_bytes(self) -> Seq<u8> {
        char_bytes(self.0@)
    }

    /// The identifier of a name: the name in ASCII lowercase.
    pub fn from_name(name: UserName) -> (id: UserId)
        ensures
            id.spec_bytes() == lower_bytes(name.spec_bytes()),
    {
        let b = name.as_bytes();
        let n = b.len();
        let mut out: Vec<u8> = Vec::new();
        let mut i: usize = 0;
        while i < n
            invariant
                n == b@.len(),
                is_user_name(b@),
                i <= n,
                out@ == lower_bytes(b@.take(i as int)),
            decreases n - i,
        {
            let c = b[i];
            out.push(if 65 <= c && c <= 90 { c + 32 } else { c });
            proof {
                assert(out@ =~= lower_bytes(b@.take(i + 1)));
            }
            i = i + 1;
        }
        proof {
            assert(b@.take(n as int) =~= b@);
            assert forall|j: int| 0 <= j < out@.len() implies out@[j] < 128 && is_name_byte(
                #[trigger] out@[j],
            ) by {
                assert(is_name_byte(b@[j]));
            }
        }
        let s = ascii_string(out.as_slice());
        proof {
            assert(char_bytes(s@) =~= out@);
            assert(lower_bytes(out@) =~= out@);
        }
        UserId(s)
    }

    /// The bytes of the identifier.
    pub fn as_lowercase_bytes(&self) -> (b: &[u8])
        ensures
            b@ == self.spec_bytes(),
    {
        proof {
            use_type_invariant(self);
        }
        let s = self.0.as_str();
        proof {
            assert(vstd::string::is_ascii(s));
        }
        let b = s.as_bytes();
        proof {
            assert(b@ =~= char_bytes(self.0@));
        }
        b
    }

    /// The identifier as a string.
    pub fn as_lowercase_str(&self) -> (s: &str)
        ensures
            s@ == ascii_chars(self.spec_bytes()),
    {
        proof {
            use_type_invariant(self);
            assert(ascii_chars(char_bytes(self.0@)) =~= self.0@);
        }
        self.0.as_str()
    }

    /// The identifier as a string.
    pub fn as_str(&self) -> (s: &str)
        ensures
            s@ == ascii_chars(self.spec_bytes()),
    {
        self.as_lowercase_str()
    }
}

} // verus!
