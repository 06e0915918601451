//! Slash-separated path used to address nested objects inside one
//! entity's object.
//!
//! - Every path has **at least one** segment; there is no root form.
//!   The minimal valid path is `/seg`.
//! - `"/s1/s2"` has the segments `"s1"`, `"s2"`.
//! - Anything else (empty input, a lone `/`, missing leading slash,
//!   trailing slash, doubled slashes) is rejected with a
//!   [`PathError`]; the stored text is canonical by construction.

use vstd::prelude::*;
use vstd::string::*;

use crate::common::text::{
    chars_of, has_slash, join_segments, lemma_join_split, lemma_slash_text_ok, lemma_split_slash_append,
    lemma_split_slash_no_slash, lemma_split_slash_nonempty, lemma_split_slash_pieces_slash_free, no_empty_piece,
    slash_text_ok, split_on_slash, split_slash,
};

verus! {

/// Reasons a string can fail to be a valid [`LocalObjPath`] (or a
/// segment can fail to be appended).
#[derive(Debug, Clone, Copy, PartialEq, Eq, Structural)]
pub enum PathError {
    /// A segment is empty (e.g. `"/"`, `"//"`, `"/a//b"`, `push("")`).
    EmptySegment,
    /// The input doesn't start with `/`.
    MissingLeadingSlash,
    /// The input ends with `/` (e.g. `"/a/"`).
    TrailingSlash,
    /// A pushed segment contains an internal slash.
    SegmentContainsSlash,
}

impl PathError {
    /// The message describing the error.
    pub open spec fn message(self) -> Seq<char> {
        match self {
            PathError::EmptySegment => "empty path segment"@,
            PathError::MissingLeadingSlash => "path must start with `/`"@,
            PathError::TrailingSlash => "path must not end with `/`"@,
            PathError::SegmentContainsSlash => "segment must not contain `/`"@,
        }
    }

    /// The message describing the error.
    pub fn to_string(&self) -> (s: String)
        ensures
            s@ == self.message(),
    {
        match self {
            PathError::EmptySegment => String::from_str("empty path segment"),
            PathError::MissingLeadingSlash => String::from_str("path must start with `/`"),
            PathError::TrailingSlash => String::from_str("path must not end with `/`"),
            PathError::SegmentContainsSlash => String::from_str("segment must not contain `/`"),
        }
    }
}

/// The canonical texts: `/seg₁[/seg₂.../segₙ]` with non-empty segments.
pub open spec fn local_text_ok(s: Seq<char>) -> bool {
    s.len() > 0 && s[0] == '/' && no_empty_piece(split_slash(s.skip(1)))
}

/// The segments of a canonical local path text.
pub open spec fn local_segments(s: Seq<char>) -> Seq<Seq<char>> {
    split_slash(s.skip(1))
}

/// What [`LocalObjPath::parse`] makes of a text: the stored text, or
/// the error.
pub open spec fn local_parse_spec(s: Seq<char>) -> Result<Seq<char>, PathError> {
    if s.len() == 0 || s[0] != '/' {
        Err(PathError::MissingLeadingSlash)
    } else if s == seq!['/'] {
        Err(PathError::EmptySegment)
    } else if !no_empty_piece(split_slash(s.skip(1)).drop_last()) {
        Err(PathError::EmptySegment)
    } else if s.last() == '/' {
        Err(PathError::TrailingSlash)
    } else if !no_empty_piece(split_slash(s.skip(1))) {
        Err(PathError::EmptySegment)
    } else {
        Ok(s)
    }
}

/// A text parses as a local path exactly when it is canonical (a
/// leading slash, then non-empty segments separated by single
/// slashes), and the path then holds the text itself, so that parsing
/// the text of a path gives the path back.
pub proof fn law_local_parse_canonical(s: Seq<char>)
    ensures
        (local_parse_spec(s) is Ok) == local_text_ok(s),
        local_text_ok(s) ==> local_parse_spec(s) == Ok::<Seq<char>, PathError>(s),
{
    if local_text_ok(s) {
        let u = s.skip(1);
        let sp = split_slash(u);
        lemma_split_slash_nonempty(u);
        assert(no_empty_piece(sp.drop_last())) by {
            assert forall|k: int| 0 <= k < sp.drop_last().len() implies #[trigger] sp.drop_last()[k].len() > 0 by {
                assert(sp.drop_last()[k] == sp[k]);
            }
        }
        if s == seq!['/'] {
            assert(u =~= Seq::<char>::empty());
            assert(sp[0].len() == 0);
        }
        if s.len() > 1 && s.last() == '/' {
            assert(u.len() > 0);
            assert(u.last() == s.last());
            assert(sp == split_slash(u.drop_last()).push(Seq::<char>::empty()));
            assert(sp[sp.len() - 1].len() == 0);
        }
    }
}

/// A text parses as a local path exactly when it starts with a slash,
/// has at least one more character, does not end with a slash and
/// holds no two slashes in a row; it then parses to itself. A text
/// without a leading slash is refused with `MissingLeadingSlash`, and a
/// lone `"/"` with `EmptySegment`.
pub proof fn law_local_parse_chars(s: Seq<char>)
    ensures
        (local_parse_spec(s) is Ok) == slash_text_ok(s),
        slash_text_ok(s) ==> local_parse_spec(s) == Ok::<Seq<char>, PathError>(s),
        (s.len() == 0 || s[0] != '/') ==> local_parse_spec(s) == Err::<Seq<char>, PathError>(PathError::MissingLeadingSlash),
        s == seq!['/'] ==> local_parse_spec(s) == Err::<Seq<char>, PathError>(PathError::EmptySegment),
{
    law_local_parse_canonical(s);
    if s.len() > 0 && s[0] == '/' {
        lemma_slash_text_ok(s);
    }
}

/// What pushing `seg` onto a path does: the error, if any.
pub open spec fn push_error_spec(seg: Seq<char>) -> Option<PathError> {
    if seg.len() == 0 {
        Some(PathError::EmptySegment)
    } else if seg.contains('/') {
        Some(PathError::SegmentContainsSlash)
    } else {
        None
    }
}

/// An owned slash-separated path with at least one segment.
#[derive(Debug, PartialEq, Eq, Hash)]
pub struct LocalObjPath {
    inner: String,
}

impl View for LocalObjPath {
    type V = Seq<char>;

    closed spec fn view(&self) -> Seq<char> {
        self.inner@
    }
}

impl LocalObjPath {
    #[verifier::type_invariant]
    closed spec fn canonical(&self) -> bool {
        local_text_ok(self.inner@)
    }

    /// The segments of this path, in order (always at least one).
    pub open spec fn segments(&self) -> Seq<Seq<char>> {
        local_segments(self@)
    }

    /// Construct a path from a single segment. The segment must be
    /// non-empty and must not contain `/`.
    pub fn new(first_segment: &str) -> (r: Result<Self, PathError>)
        ensures
            match push_error_spec(first_segment@) {
                Some(e) => r == Err::<Self, PathError>(e),
                None => (r matches Ok(p) && p@ == seq!['/'] + first_segment@
                    && p.segments() == seq![first_segment@]),
            },
    {
        if first_segment.is_empty() {
            return Err(PathError::EmptySegment);
        }
        if has_slash(first_segment) {
            return Err(PathError::SegmentContainsSlash);
        }
        let mut inner = String::new();
        proof {
            reveal_strlit("/");
        }
        inner.append("/");
        inner.append(first_segment);
        proof {
            assert(inner@ =~= seq!['/'] + first_segment@);
            assert(inner@.skip(1) =~= first_segment@);
            lemma_split_slash_no_slash(first_segment@);
        }
        Ok(LocalObjPath { inner })
    }

    /// Parse a slash-separated string `/s1[/s2.../sn]` with at least
    /// one segment. Empty input and a lone `"/"` are both rejected.
    pub fn parse(s: &str) -> (r: Result<Self, PathError>)
        ensures
            match local_parse_spec(s@) {
                Ok(t) => (r matches Ok(p) && p@ == t),
                Err(e) => r == Err::<Self, PathError>(e),
            },
    {
        let cs = chars_of(s);
        let n = cs.len();
        if n == 0 || cs[0] != '/' {
            return Err(PathError::MissingLeadingSlash);
        }
        if n == 1 {
            assert(s@ =~= seq!['/']);
            return Err(PathError::EmptySegment);
        }
        proof {
            assert(s@ != seq!['/']) by {
                if s@ == seq!['/'] {
                    assert(s@.len() == 1);
                }
            }
        }
        let rest = s.substring_char(1, n);
        assert(rest@ =~= s@.skip(1));
        let pieces = split_on_slash(rest);
        proof {
            lemma_split_slash_nonempty(s@.skip(1));
        }
        let ghost sp = split_slash(s@.skip(1));
        let m = pieces.len() - 1;
        let mut i: usize = 0;
        while i < m
            invariant
                sp == split_slash(s@.skip(1)),
                pieces@.len() == sp.len(),
                m + 1 == sp.len(),
                forall|k: int| 0 <= k < pieces@.len() ==> #[trigger] pieces@[k]@ == sp[k],
                i <= m,
                forall|k: int| 0 <= k < i ==> #[trigger] sp[k].len() > 0,
                s@.len() > 0,
                s@ != seq!['/'],
                s@[0] == '/',
            decreases m - i,
        {
            if pieces[i].as_str().is_empty() {
                assert(sp.drop_last()[i as int].len() == 0);
                assert(!no_empty_piece(sp.drop_last()));
                return Err(PathError::EmptySegment);
            }
            i = i + 1;
        }
        assert(no_empty_piece(sp.drop_last())) by {
            assert forall|k: int| 0 <= k < sp.drop_last().len() implies #[trigger] sp.drop_last()[k].len() > 0 by {
                assert(sp.drop_last()[k] == sp[k]);
            }
        }
        assert(s@.last() == s@[n - 1]);
        if cs[n - 1] == '/' {
            return Err(PathError::TrailingSlash);
        }
        if pieces[m].as_str().is_empty() {
            assert(sp[m as int].len() == 0);
            assert(!no_empty_piece(sp));
            return Err(PathError::EmptySegment);
        }
        assert(no_empty_piece(sp)) by {
            assert forall|k: int| 0 <= k < sp.len() implies #[trigger] sp[k].len() > 0 by {
                if k < m {
                    assert(sp[k] == sp.drop_last()[k]);
                }
            }
        }
        Ok(LocalObjPath { inner: s.to_owned() })
    }

    /// Append a single segment. The segment must be non-empty and must
    /// not contain `/`.
    pub fn push(&mut self, segment: &str) -> (r: Result<(), PathError>)
        ensures
            match push_error_spec(segment@) {
                Some(e) => r == Err::<(), PathError>(e) && final(self)@ == old(self)@,
                None => r == Ok::<(), PathError>(()) && final(self).segments() == old(self).segments().push(segment@)
                    && final(self)@ == old(self)@ + seq!['/'] + segment@,
            },
    {
        proof { use_type_invariant(&*self); }
        if segment.is_empty() {
            return Err(PathError::EmptySegment);
        }
        if has_slash(segment) {
            return Err(PathError::SegmentContainsSlash);
        }
        let ghost old_inner = self.inner@;
        let mut inner = self.inner.clone();
        proof {
            reveal_strlit("/");
        }
        inner.append("/");
        inner.append(segment);
        proof {
            let t = inner@;
            assert(t == old_inner + seq!['/'] + segment@);
            assert(t.skip(1) =~= old_inner.skip(1) + seq!['/'] + segment@);
            lemma_split_slash_append(old_inner.skip(1), segment@);
            assert(local_text_ok(t));
        }
        self.inner = inner;
        Ok(())
    }

    /// Iterate path segments. Always yields at least one segment.
    pub fn iter(&self) -> (it: Iter)
        ensures
            it@ == self.segments(),
            it@.len() >= 1,
            forall|k: int| 0 <= k < it@.len() ==> (#[trigger] it@[k]).len() > 0 && !it@[k].contains('/'),
            join_segments(it@) == self@,
    {
        proof {
            use_type_invariant(self);
            lemma_split_slash_nonempty(self@.skip(1));
            lemma_split_slash_pieces_slash_free(self@.skip(1));
            lemma_join_split(self@.skip(1));
            assert(seq!['/'] + self@.skip(1) =~= self@);
        }
        let cs = chars_of(self.inner.as_str());
        let rest = self.inner.as_str().substring_char(1, cs.len());
        assert(rest@ =~= self.inner@.skip(1));
        let pieces = split_on_slash(rest);
        let it = Iter { segs: pieces, pos: 0 };
        assert(it@ =~= self.segments());
        it
    }

    /// Iterate path segments (the same as [`LocalObjPath::iter`]).
    pub fn into_iter(&self) -> (it: Iter)
        ensures
            it@ == self.segments(),
    {
        self.iter()
    }

    /// Borrow the underlying string. Always begins with `/`.
    pub fn as_str(&self) -> (s: &str)
        ensures
            s@ == self@,
            local_text_ok(self@),
    {
        proof { use_type_invariant(self); }
        self.inner.as_str()
    }

    /// The displayed form: the path text itself.
    pub fn to_string(&self) -> (s: String)
        ensures
            s@ == self@,
    {
        self.inner.as_str().to_owned()
    }

    /// Whether two paths are the same text.
    pub fn same_as(&self, other: &Self) -> (b: bool)
        ensures
            b == (self@ == other@),
    {
        self.inner == other.inner
    }
}

impl Clone for LocalObjPath {
    fn clone(&self) -> (r: Self)
        ensures
            r@ == self@,
    {
        proof { use_type_invariant(self); }
        LocalObjPath { inner: self.inner.clone() }
    }
}

/// Iterator over the segments of a path.
pub struct Iter {
    segs: Vec<String>,
    pos: usize,
}

impl Iter {
    #[verifier::type_invariant]
    closed spec fn in_bounds(&self) -> bool {
        self.pos <= self.segs@.len()
    }
}

impl View for Iter {
    type V = Seq<Seq<char>>;

    /// The segments not yet yielded.
    closed spec fn view(&self) -> Seq<Seq<char>> {
        self.segs@.skip(self.pos as int).map_values(|s: String| s@)
    }
}

impl Iter {
    /// Yield the next segment, if any.
    pub fn next(&mut self) -> (r: Option<String>)
        ensures
            old(self)@.len() == 0 ==> r is None && final(self)@ == old(self)@,
            old(self)@.len() > 0 ==> (r matches Some(s) && s@ == old(self)@[0]
                && final(self)@ == old(self)@.drop_first()),
    {
        proof { use_type_invariant(&*self); }
        if self.pos < self.segs.len() {
            let s = self.segs[self.pos].clone();
            let ghost before = self@;
            self.pos = self.pos + 1;
            assert(self@ =~= before.drop_first());
            Some(s)
        } else {
            assert(self@ =~= Seq::<Seq<char>>::empty());
            None
        }
    }

    /// All remaining segments, in order.
    pub fn collect(self) -> (v: Vec<String>)
        ensures
            v@.map_values(|s: String| s@) == self@,
    {
        proof { use_type_invariant(&self); }
        let mut out: Vec<String> = Vec::new();
        let mut i = self.pos;
        while i < self.segs.len()
            invariant
                self.pos <= i <= self.segs@.len(),
                out@.len() == i - self.pos,
                forall|k: int| 0 <= k < out@.len() ==> #[trigger] out@[k] == self.segs@[self.pos + k],
            decreases self.segs@.len() - i,
        {
            out.push(self.segs[i].clone());
            i = i + 1;
        }
        assert(out@.map_values(|s: String| s@) =~= self@);
        out
    }
}

impl<'a> TryFrom<&'a str> for LocalObjPath {
    type Error = PathError;

    /// The same as [`LocalObjPath::parse`].
    fn try_from(s: &'a str) -> (r: Result<LocalObjPath, PathError>)
        ensures
            match local_parse_spec(s@) {
                Ok(t) => (r matches Ok(p) && p@ == t),
                Err(e) => r == Err::<LocalObjPath, PathError>(e),
            },
    {
        LocalObjPath::parse(s)
    }
}

impl<'a> vstd::std_specs::convert::TryFromSpecImpl<&'a str> for LocalObjPath {
    open spec fn obeys_try_from_spec() -> bool {
        false
    }

    open spec fn try_from_spec(s: &'a str) -> Result<LocalObjPath, PathError> {
        arbitrary()
    }
}

} // verus!
