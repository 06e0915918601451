//! Global address of a sub-object inside an entity, and the
//! [`Pointee`] that edges and links point at.
//!
//! A `GlobalObjPath` is `<uuid>/<seg₁>[/<seg₂>...]`: a UUID naming the
//! entity, followed by **at least one** field-name segment naming the
//! location inside that entity's object. There is no root form — to
//! refer to an entity as a whole, use [`Pointee::EntityId`].

use vstd::prelude::*;
use vstd::string::*;

use crate::common::ids::{lemma_hyphenated_no_slash, parse_uuid, uuid_hyphenated, uuid_parse, uuid_text, EntityId};
use crate::common::local_path::{
    law_local_parse_canonical, local_parse_spec, local_segments, local_text_ok, push_error_spec, LocalObjPath,
    PathError as LocalError,
};
use crate::common::text::chars_of;

verus! {

/// Reasons a string can fail to be a valid [`GlobalObjPath`].
#[derive(Debug, Clone, Copy, PartialEq, Eq, Structural)]
pub enum PathError {
    /// First component isn't a valid UUID.
    InvalidUuid,
    /// The UUID has no field segments after it.
    MissingSegments,
    /// The local part of the path failed to parse.
    Local(LocalError),
}

impl PathError {
    /// The message describing the error.
    pub open spec fn message(self) -> Seq<char> {
        match self {
            PathError::InvalidUuid => "first component must be a valid UUID"@,
            PathError::MissingSegments => "path must have at least one field segment after the UUID"@,
            PathError::Local(e) => "local path: "@ + e.message(),
        }
    }

    /// The message describing the error.
    pub fn to_string(&self) -> (s: String)
        ensures
            s@ == self.message(),
    {
        match self {
            PathError::InvalidUuid => String::from_str("first component must be a valid UUID"),
            PathError::MissingSegments => String::from_str("path must have at least one field segment after the UUID"),
            PathError::Local(e) => {
                let m = e.to_string();
                String::from_str("local path: ").concat(m.as_str())
            },
        }
    }
}

impl From<LocalError> for PathError {
    fn from(e: LocalError) -> (r: Self)
        ensures
            r == PathError::Local(e),
    {
        PathError::Local(e)
    }
}

impl vstd::std_specs::convert::FromSpecImpl<LocalError> for PathError {
    open spec fn obeys_from_spec() -> bool {
        true
    }

    open spec fn from_spec(e: LocalError) -> Self {
        PathError::Local(e)
    }
}

/// An owned `<uuid>/<seg₁>[/<seg₂>...]` path.
#[derive(Debug, PartialEq, Eq, Hash)]
pub struct GlobalObjPath {
    entity: EntityId,
    local: LocalObjPath,
}

impl View for GlobalObjPath {
    type V = (EntityId, Seq<char>);

    /// The entity and the local path text.
    closed spec fn view(&self) -> (EntityId, Seq<char>) {
        (self.entity, self.local@)
    }
}

/// The index of the first slash in `s`, if there is one.
pub open spec fn first_slash(s: Seq<char>) -> Option<nat>
    decreases s.len(),
{
    if s.len() == 0 {
        None
    } else if s[0] == '/' {
        Some(0)
    } else {
        match first_slash(s.drop_first()) {
            Some(i) => Some(i + 1),
            None => None,
        }
    }
}

proof fn lemma_first_slash(s: Seq<char>, i: int)
    requires
        0 <= i <= s.len(),
        forall|k: int| 0 <= k < i ==> s[k] != '/',
        i < s.len() ==> s[i] == '/',
    ensures
        first_slash(s) == (if i < s.len() { Some(i as nat) } else { None::<nat> }),
    decreases i,
{
    if i > 0 {
        lemma_first_slash(s.drop_first(), i - 1);
    }
}

/// What the text after the entity must parse to: `None` when there is
/// no segment text at all.
pub open spec fn global_tail_spec(tail: Seq<char>) -> Result<Seq<char>, PathError> {
    if tail.len() == 0 {
        Err(PathError::MissingSegments)
    } else {
        match local_parse_spec(seq!['/'] + tail) {
            Ok(t) => Ok(t),
            Err(e) => Err(PathError::Local(e)),
        }
    }
}

/// What [`GlobalObjPath::parse`] makes of a text, given what the UUID
/// parser makes of the part before the first slash: the entity and
/// local path text, or the error.
pub open spec fn global_parse_spec(s: Seq<char>, parsed: Option<u128>) -> Result<(EntityId, Seq<char>), PathError> {
    match first_slash(s) {
        None => Err(PathError::MissingSegments),
        Some(i) => match parsed {
            None => Err(PathError::InvalidUuid),
            Some(id) => match global_tail_spec(s.skip(i as int + 1)) {
                Ok(t) => Ok((id, t)),
                Err(e) => Err(e),
            },
        },
    }
}

/// The text before the first slash of `s` (all of `s` without one).
pub open spec fn uuid_part(s: Seq<char>) -> Seq<char> {
    match first_slash(s) {
        Some(i) => s.take(i as int),
        None => s,
    }
}

impl GlobalObjPath {
    /// Build a path from an entity id and at least one field segment.
    pub fn new(entity: EntityId, first_segment: &str) -> (r: Result<Self, PathError>)
        ensures
            match push_error_spec(first_segment@) {
                Some(e) => r == Err::<Self, PathError>(PathError::Local(e)),
                None => (r matches Ok(p) && p@ == (entity, seq!['/'] + first_segment@)),
            },
    {
        match LocalObjPath::new(first_segment) {
            Ok(local) => Ok(GlobalObjPath { entity, local }),
            Err(e) => Err(PathError::Local(e)),
        }
    }

    /// Build a path from an entity id and a [`LocalObjPath`].
    pub fn from_parts(entity: EntityId, local: LocalObjPath) -> (p: Self)
        ensures
            p@ == (entity, local@),
    {
        GlobalObjPath { entity, local }
    }

    /// Finish parsing once the entity part has been read: `parsed` is
    /// what the UUID parser made of the text before the first slash,
    /// `tail` the text after it.
    pub fn from_parsed(parsed: Option<u128>, tail: &str) -> (r: Result<Self, PathError>)
        ensures
            match parsed {
                None => r == Err::<Self, PathError>(PathError::InvalidUuid),
                Some(id) => match global_tail_spec(tail@) {
                    Ok(t) => (r matches Ok(p) && p@ == (id, t)),
                    Err(e) => r == Err::<Self, PathError>(e),
                },
            },
    {
        let entity = match parsed {
            Some(id) => id,
            None => return Err(PathError::InvalidUuid),
        };
        if tail.is_empty() {
            return Err(PathError::MissingSegments);
        }
        let mut text = String::new();
        proof {
            reveal_strlit("/");
        }
        text.append("/");
        text.append(tail);
        assert(text@ =~= seq!['/'] + tail@);
        match LocalObjPath::parse(text.as_str()) {
            Ok(local) => Ok(GlobalObjPath { entity, local }),
            Err(e) => Err(PathError::Local(e)),
        }
    }

    /// Parse a string of the form `<uuid>/<seg₁>[/<seg₂>...]`. The
    /// displayed form of a path (see [`GlobalObjPath::to_string`]) parses
    /// back to that path.
    pub fn parse(s: &str) -> (r: Result<Self, PathError>)
        ensures
            match global_parse_spec(s@, uuid_parse(uuid_part(s@))) {
                Ok(v) => (r matches Ok(p) && p@ == v),
                Err(e) => r == Err::<Self, PathError>(e),
            },
            forall|x: EntityId, t: Seq<char>| s@ == #[trigger] (uuid_hyphenated(x) + t) && local_text_ok(t)
                ==> (r matches Ok(q) && q@ == (x, t)),
    {
        let cs = chars_of(s);
        let n = cs.len();
        let mut i: usize = 0;
        while i < n && cs[i] != '/'
            invariant
                cs@ == s@,
                n == s@.len(),
                i <= n,
                forall|k: int| 0 <= k < i ==> s@[k] != '/',
            decreases n - i,
        {
            i = i + 1;
        }
        proof {
            lemma_first_slash(s@, i as int);
        }
        if i == n {
            proof {
                assert forall|x: EntityId, t: Seq<char>| s@ == #[trigger] (uuid_hyphenated(x) + t) && local_text_ok(t)
                    implies false by {
                    lemma_hyphenated_no_slash(x);
                    assert(s@[36] == t[0]);
                }
            }
            return Err(PathError::MissingSegments);
        }
        let head = s.substring_char(0, i);
        let tail = s.substring_char(i + 1, n);
        assert(head@ =~= s@.take(i as int));
        assert(tail@ =~= s@.skip(i + 1));
        let parsed = parse_uuid(head);
        let r = Self::from_parsed(parsed, tail);
        proof {
            assert forall|x: EntityId, t: Seq<char>| s@ == #[trigger] (uuid_hyphenated(x) + t) && local_text_ok(t)
                implies (r matches Ok(q) && q@ == (x, t)) by {
                let h = uuid_hyphenated(x);
                lemma_hyphenated_no_slash(x);
                assert(s@[36] == t[0]);
                if i < 36 {
                    assert(s@[i as int] == h[i as int]);
                    assert(h.contains(h[i as int]));
                }
                if i > 36 {
                    assert(s@[36] != '/');
                }
                assert(head@ =~= h);
                assert(tail@ =~= t.skip(1));
                assert(seq!['/'] + tail@ =~= t);
                law_local_parse_canonical(t);
                if tail@.len() == 0 {
                    assert(t =~= seq!['/']);
                }
            }
        }
        r
    }

    /// The entity this path addresses.
    pub fn entity(&self) -> (id: EntityId)
        ensures
            id == self@.0,
    {
        self.entity
    }

    /// The local navigation inside the entity's object.
    pub fn local(&self) -> (l: &LocalObjPath)
        ensures
            l@ == self@.1,
    {
        &self.local
    }

    /// Append a single field segment.
    pub fn push(&mut self, segment: &str) -> (r: Result<(), LocalError>)
        ensures
            match push_error_spec(segment@) {
                Some(e) => r == Err::<(), LocalError>(e) && final(self)@ == old(self)@,
                None => r == Ok::<(), LocalError>(()) && final(self)@ == (old(self)@.0, old(self)@.1 + seq!['/'] + segment@)
                    && local_segments(final(self)@.1) == local_segments(old(self)@.1).push(segment@),
            },
    {
        self.local.push(segment)
    }

    /// Iterate over field segments. Does **not** yield the UUID.
    pub fn iter(&self) -> (it: crate::common::local_path::Iter)
        ensures
            it@ == local_segments(self@.1),
            it@.len() >= 1,
    {
        self.local.iter()
    }

    /// The displayed form: the hyphenated UUID followed by the local path.
    pub fn to_string(&self) -> (s: String)
        ensures
            s@ == uuid_hyphenated(self@.0) + self@.1,
            local_text_ok(self@.1),
    {
        let mut s = uuid_text(self.entity);
        s.append(self.local.as_str());
        s
    }

    /// Whether two paths are the same entity and text.
    pub fn same_as(&self, other: &Self) -> (b: bool)
        ensures
            b == (self@ == other@),
    {
        self.entity == other.entity && self.local.same_as(&other.local)
    }
}

impl Clone for GlobalObjPath {
    fn clone(&self) -> (r: Self)
        ensures
            r@ == self@,
    {
        GlobalObjPath { entity: self.entity, local: self.local.clone() }
    }
}

/// The mathematical value of a [`Pointee`]: an entity id, or an entity
/// id with a local path text.
pub enum PointeeV {
    EntityId(EntityId),
    Path(EntityId, Seq<char>),
}

/// What an edge endpoint or a `Field::Link` can point at — either a
/// whole entity (by id) or a sub-object inside an entity (by path).
#[derive(Debug, Eq, Hash)]
pub enum Pointee {
    EntityId(EntityId),
    Path(GlobalObjPath),
}

impl View for Pointee {
    type V = PointeeV;

    open spec fn view(&self) -> PointeeV {
        match self {
            Pointee::EntityId(id) => PointeeV::EntityId(*id),
            Pointee::Path(p) => PointeeV::Path(p@.0, p@.1),
        }
    }
}

impl Pointee {
    /// Whether two pointees are the same.
    pub fn same_as(&self, other: &Self) -> (b: bool)
        ensures
            b == (self@ == other@),
    {
        match (self, other) {
            (Pointee::EntityId(a), Pointee::EntityId(b)) => *a == *b,
            (Pointee::Path(a), Pointee::Path(b)) => a.same_as(b),
            _ => false,
        }
    }
}

impl Clone for Pointee {
    fn clone(&self) -> (r: Self)
        ensures
            r@ == self@,
    {
        match self {
            Pointee::EntityId(id) => Pointee::EntityId(*id),
            Pointee::Path(p) => Pointee::Path(p.clone()),
        }
    }
}

impl PartialEq for Pointee {
    fn eq(&self, other: &Self) -> (b: bool) {
        self.same_as(other)
    }
}

impl vstd::std_specs::cmp::PartialEqSpecImpl for Pointee {
    open spec fn obeys_eq_spec() -> bool {
        true
    }

    open spec fn eq_spec(&self, other: &Self) -> bool {
        self@ == other@
    }
}

impl From<EntityId> for Pointee {
    fn from(id: EntityId) -> (r: Self)
        ensures
            r == Pointee::EntityId(id),
    {
        Pointee::EntityId(id)
    }
}

impl vstd::std_specs::convert::FromSpecImpl<EntityId> for Pointee {
    open spec fn obeys_from_spec() -> bool {
        true
    }

    open spec fn from_spec(id: EntityId) -> Self {
        Pointee::EntityId(id)
    }
}

impl<'a> TryFrom<&'a str> for GlobalObjPath {
    type Error = PathError;

    /// The same as [`GlobalObjPath::parse`].
    fn try_from(s: &'a str) -> (r: Result<GlobalObjPath, PathError>)
        ensures
            match global_parse_spec(s@, uuid_parse(uuid_part(s@))) {
                Ok(v) => (r matches Ok(p) && p@ == v),
                Err(e) => r == Err::<GlobalObjPath, PathError>(e),
            },
    {
        GlobalObjPath::parse(s)
    }
}

impl<'a> vstd::std_specs::convert::TryFromSpecImpl<&'a str> for GlobalObjPath {
    open spec fn obeys_try_from_spec() -> bool {
        false
    }

    open spec fn try_from_spec(s: &'a str) -> Result<GlobalObjPath, PathError> {
        arbitrary()
    }
}

impl TryFrom<String> for GlobalObjPath {
    type Error = PathError;

    /// The same as [`GlobalObjPath::parse`] of the text.
    fn try_from(s: String) -> (r: Result<GlobalObjPath, PathError>)
        ensures
            match global_parse_spec(s@, uuid_parse(uuid_part(s@))) {
                Ok(v) => (r matches Ok(p) && p@ == v),
                Err(e) => r == Err::<GlobalObjPath, PathError>(e),
            },
    {
        GlobalObjPath::parse(s.as_str())
    }
}

impl vstd::std_specs::convert::TryFromSpecImpl<String> for GlobalObjPath {
    open spec fn obeys_try_from_spec() -> bool {
        false
    }

    open spec fn try_from_spec(s: String) -> Result<GlobalObjPath, PathError> {
        arbitrary()
    }
}

impl std::str::FromStr for GlobalObjPath {
    type Err = PathError;

    /// The same as [`GlobalObjPath::parse`].
    fn from_str(s: &str) -> (r: Result<GlobalObjPath, PathError>)
        ensures
            match global_parse_spec(s@, uuid_parse(uuid_part(s@))) {
                Ok(v) => (r matches Ok(p) && p@ == v),
                Err(e) => r == Err::<GlobalObjPath, PathError>(e),
            },
    {
        GlobalObjPath::parse(s)
    }
}

} // verus!
