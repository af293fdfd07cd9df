use vstd::prelude::*;
use vstd::string::StrSliceExecFns;
use vstd::string::StringExecFns;

verus! {

/// Why a text is not an identifier.
#[derive(Clone, Copy, Debug, PartialEq, Eq, Structural)]
pub enum IdentifierError {
    /// The text does not hold exactly one colon; `colons` is how many it holds.
    ColonCount { colons: usize },
    /// The namespace holds a character outside `a-z`, `0-9`, `_`, `-` and `.`.
    InvalidNamespace,
    /// The name holds a character outside `a-z`, `0-9`, `_`, `-` and `.`.
    InvalidName,
}

/// Whether `c` may stand in a namespace or a name.
pub open spec fn is_valid_char(c: char) -> bool {
    ||| 'a' <= c <= 'z'
    ||| '0' <= c <= '9'
    ||| c == '_'
    ||| c == '-'
    ||| c == '.'
}

/// Whether every character of `s` may stand in a namespace or a name.
pub open spec fn all_valid(s: Seq<char>) -> bool {
    forall|i: int| 0 <= i < s.len() ==> is_valid_char(#[trigger] s[i])
}

/// The number of colons in `s`.
pub open spec fn count_colons(s: Seq<char>) -> nat
    decreases s.len(),
{
    if s.len() == 0 {
        0
    } else {
        count_colons(s.drop_last()) + if s.last() == ':' {
            1nat
        } else {
            0nat
        }
    }
}

/// The place of the first colon in `s`, or the length of `s` if it holds none.
pub open spec fn first_colon(s: Seq<char>) -> int
    decreases s.len(),
{
    if s.len() == 0 || s[0] == ':' {
        0
    } else {
        1 + first_colon(s.drop_first())
    }
}

/// What parsing `s` yields: the namespace before the only colon and the
/// name behind it, or the first reason why `s` is no identifier.
pub open spec fn parse(s: Seq<char>) -> Result<(Seq<char>, Seq<char>), IdentifierError> {
    let colon = first_colon(s);
    if count_colons(s) != 1 {
        Err(IdentifierError::ColonCount { colons: count_colons(s) as usize })
    } else if !all_valid(s.subrange(0, colon)) {
        Err(IdentifierError::InvalidNamespace)
    } else if !all_valid(s.subrange(colon + 1, s.len() as int)) {
        Err(IdentifierError::InvalidName)
    } else {
        Ok((s.subrange(0, colon), s.subrange(colon + 1, s.len() as int)))
    }
}

pub proof fn lemma_first_colon_bounds(s: Seq<char>)
    ensures
        0 <= first_colon(s) <= s.len(),
        first_colon(s) < s.len() ==> s[first_colon(s)] == ':',
        forall|i: int| 0 <= i < first_colon(s) ==> s[i] != ':',
    decreases s.len(),
{
    if s.len() == 0 || s[0] == ':' {
    } else {
        let rest = s.drop_first();
        lemma_first_colon_bounds(rest);
        assert forall|i: int| 0 <= i < first_colon(s) implies s[i] != ':' by {
            if i > 0 {
                assert(s[i] == rest[i - 1]);
            }
        }
    }
}

/// The colons of two texts put together are those of the one and of the other.
pub proof fn lemma_count_colons_concat(front: Seq<char>, back: Seq<char>)
    ensures
        count_colons(front + back) == count_colons(front) + count_colons(back),
    decreases back.len(),
{
    if back.len() == 0 {
    } else {
        assert((front + back).drop_last() == front + back.drop_last());
        lemma_count_colons_concat(front, back.drop_last());
    }
}

/// A text of valid characters holds no colon.
pub proof fn lemma_valid_has_no_colon(s: Seq<char>)
    requires
        all_valid(s),
    ensures
        count_colons(s) == 0,
    decreases s.len(),
{
    if s.len() > 0 {
        lemma_valid_has_no_colon(s.drop_last());
    }
}

/// A valid namespace, a colon and a valid name parse into that namespace
/// and that name: what `as_string` writes of a valid identifier, `from_str`
/// reads back.
pub proof fn lemma_parse_round_trip(namespace: Seq<char>, name: Seq<char>)
    requires
        all_valid(namespace),
        all_valid(name),
    ensures
        parse(namespace + seq![':'] + name) == Ok::<(Seq<char>, Seq<char>), IdentifierError>(
            (namespace, name),
        ),
{
    let text = namespace + seq![':'] + name;
    lemma_valid_has_no_colon(namespace);
    lemma_valid_has_no_colon(name);
    lemma_count_colons_concat(namespace + seq![':'], name);
    lemma_count_colons_concat(namespace, seq![':']);
    assert(seq![':'].drop_last() == Seq::<char>::empty());
    assert(count_colons(seq![':']) == 1) by {
        assert(count_colons(Seq::<char>::empty()) == 0);
    }
    lemma_first_colon_is(text, namespace.len() as int);
    assert(text.subrange(0, namespace.len() as int) =~= namespace);
    assert(text.subrange(namespace.len() as int + 1, text.len() as int) =~= name);
}

/// A prefix without a colon is where the first colon stands.
proof fn lemma_first_colon_is(s: Seq<char>, at: int)
    requires
        0 <= at <= s.len(),
        forall|i: int| 0 <= i < at ==> s[i] != ':',
        at < s.len() ==> s[at] == ':',
    ensures
        first_colon(s) == at,
{
    lemma_first_colon_bounds(s);
    let found = first_colon(s);
    if found < at {
    } else if found > at {
    }
}

fn is_valid(c: char) -> (valid: bool)
    ensures
        valid == is_valid_char(c),
{
    ('a' <= c && c <= 'z') || ('0' <= c && c <= '9') || c == '_' || c == '-' || c == '.'
}

fn check_part(part: &str) -> (valid: bool)
    ensures
        valid == all_valid(part@),
{
    let len: usize = part.unicode_len();
    let mut i: usize = 0;
    while i < len
        invariant
            len == part@.len(),
            i <= len,
            forall|j: int| 0 <= j < i ==> is_valid_char(#[trigger] part@[j]),
        decreases len - i,
    {
        if !is_valid(part.get_char(i)) {
            return false;
        }
        i += 1;
    }
    true
}

/// Namespaced key of a block: a namespace and a name, written `namespace:name`.
#[derive(Debug)]
pub struct Identifier {
    namespace: String,
    name: String,
}

impl Identifier {
    /// The namespace, as a sequence of characters.
    pub closed spec fn namespace(&self) -> Seq<char> {
        self.namespace@
    }

    /// The name, as a sequence of characters.
    pub closed spec fn name(&self) -> Seq<char> {
        self.name@
    }

    /// Whether both parts hold valid characters only.
    pub open spec fn is_valid(&self) -> bool {
        all_valid(self.namespace()) && all_valid(self.name())
    }

    /// Whether `self` and `other` name the same thing.
    pub open spec fn same_as(&self, other: &Identifier) -> bool {
        self.namespace() == other.namespace() && self.name() == other.name()
    }

    /// Puts the two parts together without looking at them.
    pub fn new(namespace: &str, name: &str) -> (id: Self)
        ensures
            id.namespace() == namespace@,
            id.name() == name@,
    {
        Self { namespace: namespace.to_owned(), name: name.to_owned() }
    }

    pub fn from(id: String) -> (parsed: Result<Self, IdentifierError>)
        ensures
            match parse(id@) {
                Ok((namespace, name)) => parsed is Ok && parsed->Ok_0.namespace() == namespace
                    && parsed->Ok_0.name() == name,
                Err(e) => parsed == Err::<Self, IdentifierError>(e),
            },
    {
        Self::from_str(id.as_str())
    }

    /// Parses `namespace:name`.
    pub fn from_str(id: &str) -> (parsed: Result<Self, IdentifierError>)
        ensures
            match parse(id@) {
                Ok((namespace, name)) => parsed is Ok && parsed->Ok_0.namespace() == namespace
                    && parsed->Ok_0.name() == name,
                Err(e) => parsed == Err::<Self, IdentifierError>(e),
            },
    {
        let len: usize = id.unicode_len();
        let mut colons: usize = 0;
        let mut first: usize = len;
        let mut i: usize = 0;
        while i < len
            invariant
                len == id@.len(),
                i <= len,
                colons <= i,
                colons == count_colons(id@.subrange(0, i as int)),
                colons == 0 ==> first == len,
                colons > 0 ==> first < i && id@[first as int] == ':',
                forall|j: int| 0 <= j < i && j < first ==> id@[j] != ':',
            decreases len - i,
        {
            let c = id.get_char(i);
            proof {
                let next = id@.subrange(0, i + 1);
                assert(next.drop_last() == id@.subrange(0, i as int));
            }
            if c == ':' {
                if colons == 0 {
                    first = i;
                }
                colons += 1;
            }
            i += 1;
        }
        proof {
            assert(id@.subrange(0, len as int) == id@);
            lemma_first_colon_is(id@, first as int);
        }
        if colons != 1 {
            return Err(IdentifierError::ColonCount { colons });
        }
        let namespace = id.substring_char(0, first);
        let name = id.substring_char(first + 1, len);
        if !check_part(namespace) {
            return Err(IdentifierError::InvalidNamespace);
        }
        if !check_part(name) {
            return Err(IdentifierError::InvalidName);
        }
        Ok(Self { namespace: namespace.to_owned(), name: name.to_owned() })
    }

    pub fn get_namespace(&self) -> (namespace: String)
        ensures
            namespace@ == self.namespace(),
    {
        self.namespace.clone()
    }

    pub fn get_name(&self) -> (name: String)
        ensures
            name@ == self.name(),
    {
        self.name.clone()
    }

    /// The identifier as text: the namespace, a colon, the name.
    pub fn as_string(&self) -> (text: String)
        ensures
            text@ == self.namespace() + seq![':'] + self.name(),
    {
        let mut text = self.namespace.clone();
        proof {
            reveal_strlit(":");
        }
        text.append(":");
        text.append(self.name.as_str());
        text
    }

    /// Checks the namespace, then the name.
    pub fn validate(&self) -> (checked: Result<(), IdentifierError>)
        ensures
            checked == if !all_valid(self.namespace()) {
                Err::<(), IdentifierError>(IdentifierError::InvalidNamespace)
            } else if !all_valid(self.name()) {
                Err::<(), IdentifierError>(IdentifierError::InvalidName)
            } else {
                Ok::<(), IdentifierError>(())
            },
    {
        if !check_part(self.namespace.as_str()) {
            Err(IdentifierError::InvalidNamespace)
        } else if !check_part(self.name.as_str()) {
            Err(IdentifierError::InvalidName)
        } else {
            Ok(())
        }
    }

    /// Whether the two identifiers have the same namespace and the same name.
    pub fn matches(&self, other: &Identifier) -> (same: bool)
        ensures
            same == self.same_as(other),
    {
        self.namespace == other.namespace && self.name == other.name
    }

}

impl Clone for Identifier {
    fn clone(&self) -> (copy: Self)
        ensures
            copy == *self,
    {
        Self { namespace: self.namespace.clone(), name: self.name.clone() }
    }
}

} // verus!
