//! Slash-separated path used to address nested objects, with a root.
//!
//! - Both `""` and `"/"` parse to the **root**, which has no segments.
//! - `"/s1/s2"` has the segments `"s1"`, `"s2"`.
//! - Anything else (missing leading slash, trailing slash, doubled
//!   slashes) is rejected with a [`PathError`]; the stored text is
//!   canonical by construction.

use vstd::prelude::*;
use vstd::string::*;

use crate::common::text::{
    chars_of, join_segments, lemma_join_split, lemma_slash_text_ok, lemma_split_slash_append,
    lemma_split_slash_no_slash, lemma_split_slash_nonempty, lemma_split_slash_pieces_chars,
    lemma_split_slash_pieces_slash_free, no_empty_piece, slash_text_ok, split_on_slash, split_slash,
};

verus! {

/// Reasons a string can fail to be a valid [`Path`] (or a segment can
/// fail to be appended).
#[derive(Debug, Clone, Copy, PartialEq, Eq, Structural)]
pub enum PathError {
    /// A segment is empty (e.g. `"//"`, `"/a//b"`, `push("")`).
    EmptySegment,
    /// A non-root path doesn't start with `/`.
    MissingLeadingSlash,
    /// A non-root path ends with `/` (e.g. `"/a/"`).
    TrailingSlash,
    /// A pushed segment contains an internal slash.
    SegmentContainsSlash,
}

impl PathError {
    /// The message describing the error.
    pub open spec fn message(self) -> Seq<char> {
        match self {
            PathError::EmptySegment => "empty path segment"@,
            PathError::MissingLeadingSlash => "path must start with `/`"@,
            PathError::TrailingSlash => "path must not end with `/`"@,
            PathError::SegmentContainsSlash => "segment must not contain `/`"@,
        }
    }

    /// The message describing the error.
    pub fn to_string(&self) -> (s: String)
        ensures
            s@ == self.message(),
    {
        match self {
            PathError::EmptySegment => String::from_str("empty path segment"),
            PathError::MissingLeadingSlash => String::from_str("path must start with `/`"),
            PathError::TrailingSlash => String::from_str("path must not end with `/`"),
            PathError::SegmentContainsSlash => String::from_str("segment must not contain `/`"),
        }
    }
}

/// The canonical texts: `""` (the root) or `/seg₁/.../segₙ` with
/// non-empty segments.
pub open spec fn path_text_ok(s: Seq<char>) -> bool {
    s.len() == 0 || (s[0] == '/' && no_empty_piece(split_slash(s.skip(1))))
}

/// The segments of a canonical path text.
pub open spec fn path_segments(s: Seq<char>) -> Seq<Seq<char>> {
    if s.len() == 0 {
        Seq::<Seq<char>>::empty()
    } else {
        split_slash(s.skip(1))
    }
}

/// What [`Path::parse`] makes of a text: the stored text, or the error.
pub open spec fn path_parse_spec(s: Seq<char>) -> Result<Seq<char>, PathError> {
    if s.len() == 0 || s == seq!['/'] {
        Ok(Seq::<char>::empty())
    } else if s[0] != '/' {
        Err(PathError::MissingLeadingSlash)
    } else if !no_empty_piece(split_slash(s.skip(1)).drop_last()) {
        Err(PathError::EmptySegment)
    } else if s.last() == '/' {
        Err(PathError::TrailingSlash)
    } else if !no_empty_piece(split_slash(s.skip(1))) {
        Err(PathError::EmptySegment)
    } else {
        Ok(s)
    }
}

/// A text parses as a path exactly when it is empty, a lone `"/"` (both
/// the root, held as the empty text), or starts with a slash, does not
/// end with one and holds no two slashes in a row (then it parses to
/// itself). Any other text without a leading slash is refused with
/// `MissingLeadingSlash`.
pub proof fn law_path_parse_chars(s: Seq<char>)
    ensures
        (path_parse_spec(s) is Ok) == (s.len() == 0 || s == seq!['/'] || slash_text_ok(s)),
        (s.len() == 0 || s == seq!['/']) ==> path_parse_spec(s) == Ok::<Seq<char>, PathError>(Seq::<char>::empty()),
        slash_text_ok(s) ==> path_parse_spec(s) == Ok::<Seq<char>, PathError>(s),
        (s.len() > 0 && s != seq!['/'] && s[0] != '/') ==> path_parse_spec(s) == Err::<Seq<char>, PathError>(
            PathError::MissingLeadingSlash,
        ),
{
    if s.len() > 0 && s != seq!['/'] && s[0] == '/' {
        let u = s.skip(1);
        lemma_slash_text_ok(s);
        lemma_split_slash_pieces_chars(u);
        if s.len() == 1 {
            assert(s =~= seq!['/']);
        }
        assert(u.last() == s.last());
    }
    if slash_text_ok(s) {
        assert(s != seq!['/']) by {
            if s == seq!['/'] {
                assert(s.len() == 1);
            }
        }
    }
}

/// What pushing `seg` onto a path does: the error, if any.
pub open spec fn push_error_spec(seg: Seq<char>) -> Option<PathError> {
    if seg.len() == 0 {
        Some(PathError::EmptySegment)
    } else if seg.contains('/') {
        Some(PathError::SegmentContainsSlash)
    } else {
        None
    }
}

/// An owned slash-separated path: `""` (root) or `/seg/.../seg`.
#[derive(Debug, PartialEq, Eq, Hash)]
pub struct Path {
    inner: String,
}

impl View for Path {
    type V = Seq<char>;

    closed spec fn view(&self) -> Seq<char> {
        self.inner@
    }
}

impl Path {
    #[verifier::type_invariant]
    closed spec fn canonical(&self) -> bool {
        path_text_ok(self.inner@)
    }

    /// The segments of this path, in order.
    pub open spec fn segments(&self) -> Seq<Seq<char>> {
        path_segments(self@)
    }

    /// Construct the root path.
    pub fn new() -> (p: Self)
        ensures
            p@ == Seq::<char>::empty(),
            p.segments() == Seq::<Seq<char>>::empty(),
    {
        Path { inner: String::new() }
    }

    /// Parse a slash-separated string. Accepts `""` and `"/"` as the
    /// root, and `/s1/.../sn` for any non-zero `n`.
    pub fn parse(s: &str) -> (r: Result<Self, PathError>)
        ensures
            match path_parse_spec(s@) {
                Ok(t) => (r matches Ok(p) && p@ == t),
                Err(e) => r == Err::<Self, PathError>(e),
            },
    {
        let cs = chars_of(s);
        let n = cs.len();
        if n == 0 || (n == 1 && cs[0] == '/') {
            proof {
                if n == 1 {
                    assert(s@ =~= seq!['/']);
                }
            }
            return Ok(Self::new());
        }
        proof {
            assert(s@ != seq!['/']) by {
                if s@ == seq!['/'] {
                    assert(s@.len() == 1);
                }
            }
        }
        if cs[0] != '/' {
            return Err(PathError::MissingLeadingSlash);
        }
        let rest = s.substring_char(1, n);
        assert(rest@ =~= s@.skip(1));
        let pieces = split_on_slash(rest);
        proof {
            lemma_split_slash_nonempty(s@.skip(1));
        }
        let ghost sp = split_slash(s@.skip(1));
        let m = pieces.len() - 1;
        let mut i: usize = 0;
        while i < m
            invariant
                sp == split_slash(s@.skip(1)),
                pieces@.len() == sp.len(),
                m + 1 == sp.len(),
                forall|k: int| 0 <= k < pieces@.len() ==> #[trigger] pieces@[k]@ == sp[k],
                i <= m,
                forall|k: int| 0 <= k < i ==> #[trigger] sp[k].len() > 0,
                s@.len() > 0,
                s@ != seq!['/'],
                s@[0] == '/',
            decreases m - i,
        {
            if pieces[i].as_str().is_empty() {
                assert(sp.drop_last()[i as int].len() == 0);
                assert(!no_empty_piece(sp.drop_last()));
                return Err(PathError::EmptySegment);
            }
            i = i + 1;
        }
        assert(no_empty_piece(sp.drop_last())) by {
            assert forall|k: int| 0 <= k < sp.drop_last().len() implies #[trigger] sp.drop_last()[k].len() > 0 by {
                assert(sp.drop_last()[k] == sp[k]);
            }
        }
        assert(s@.last() == s@[n - 1]);
        if cs[n - 1] == '/' {
            return Err(PathError::TrailingSlash);
        }
        if pieces[m].as_str().is_empty() {
            assert(sp[m as int].len() == 0);
            assert(!no_empty_piece(sp));
            return Err(PathError::EmptySegment);
        }
        assert(no_empty_piece(sp)) by {
            assert forall|k: int| 0 <= k < sp.len() implies #[trigger] sp[k].len() > 0 by {
                if k < m {
                    assert(sp[k] == sp.drop_last()[k]);
                }
            }
        }
        Ok(Path { inner: s.to_owned() })
    }

    /// Append a single segment. The segment must be non-empty and must
    /// not contain `/`.
    pub fn push(&mut self, segment: &str) -> (r: Result<(), PathError>)
        ensures
            match push_error_spec(segment@) {
                Some(e) => r == Err::<(), PathError>(e) && final(self)@ == old(self)@,
                None => r == Ok::<(), PathError>(()) && final(self).segments() == old(self).segments().push(segment@)
                    && final(self)@ == old(self)@ + seq!['/'] + segment@,
            },
    {
        proof { use_type_invariant(&*self); }
        if segment.is_empty() {
            return Err(PathError::EmptySegment);
        }
        let cs = chars_of(segment);
        let mut i: usize = 0;
        while i < cs.len()
            invariant
                cs@ == segment@,
                i <= cs@.len(),
                forall|k: int| 0 <= k < i ==> cs@[k] != '/',
            decreases cs@.len() - i,
        {
            if cs[i] == '/' {
                return Err(PathError::SegmentContainsSlash);
            }
            i = i + 1;
        }
        let ghost old_inner = self.inner@;
        let mut inner = String::new();
        std::mem::swap(&mut inner, &mut self.inner);
        proof {
            reveal_strlit("/");
        }
        inner.append("/");
        inner.append(segment);
        proof {
            let t = inner@;
            assert(t == old_inner + seq!['/'] + segment@);
            lemma_split_slash_pieces_slash_free(old_inner);
            if old_inner.len() == 0 {
                assert(t.skip(1) =~= segment@);
                lemma_split_slash_no_slash(segment@);
            } else {
                assert(t.skip(1) =~= old_inner.skip(1) + seq!['/'] + segment@);
                lemma_split_slash_append(old_inner.skip(1), segment@);
            }
            assert(path_text_ok(t));
        }
        self.inner = inner;
        Ok(())
    }

    /// `true` if the path has no segments.
    pub fn is_root(&self) -> (b: bool)
        ensures
            b == (self.segments().len() == 0),
            b == (self@.len() == 0),
    {
        proof {
            use_type_invariant(self);
            if self@.len() > 0 {
                lemma_split_slash_nonempty(self@.skip(1));
            }
        }
        self.inner.as_str().is_empty()
    }

    /// Iterate path segments.
    pub fn iter(&self) -> (it: Iter)
        ensures
            it@ == self.segments(),
            forall|k: int| 0 <= k < it@.len() ==> (#[trigger] it@[k]).len() > 0 && !it@[k].contains('/'),
            join_segments(it@) == self@,
    {
        proof {
            use_type_invariant(self);
            if self@.len() > 0 {
                lemma_split_slash_pieces_slash_free(self@.skip(1));
                lemma_join_split(self@.skip(1));
                assert(seq!['/'] + self@.skip(1) =~= self@);
            }
        }
        if self.inner.as_str().is_empty() {
            return Iter { segs: Vec::new(), pos: 0 };
        }
        let cs = chars_of(self.inner.as_str());
        let rest = self.inner.as_str().substring_char(1, cs.len());
        assert(rest@ =~= self.inner@.skip(1));
        let pieces = split_on_slash(rest);
        let it = Iter { segs: pieces, pos: 0 };
        assert(it@ =~= self.segments());
        it
    }

    /// Iterate path segments (the same as [`Path::iter`]).
    pub fn into_iter(&self) -> (it: Iter)
        ensures
            it@ == self.segments(),
    {
        self.iter()
    }

    /// Borrow the underlying string. The root form is always `""`.
    pub fn as_str(&self) -> (s: &str)
        ensures
            s@ == self@,
    {
        self.inner.as_str()
    }

    /// The displayed form: `"/"` for the root, the path text otherwise.
    pub fn to_string(&self) -> (s: String)
        ensures
            s@ == (if self@.len() == 0 { seq!['/'] } else { self@ }),
    {
        if self.inner.as_str().is_empty() {
            proof {
                reveal_strlit("/");
            }
            "/".to_owned()
        } else {
            self.inner.as_str().to_owned()
        }
    }
}

impl Clone for Path {
    fn clone(&self) -> (r: Self)
        ensures
            r@ == self@,
    {
        proof { use_type_invariant(self); }
        Path { inner: self.inner.clone() }
    }
}

impl Default for Path {
    fn default() -> (p: Self)
        ensures
            p@ == Seq::<char>::empty(),
    {
        Path::new()
    }
}

/// Iterator over the segments of a path.
pub struct Iter {
    segs: Vec<String>,
    pos: usize,
}

impl Iter {
    #[verifier::type_invariant]
    closed spec fn in_bounds(&self) -> bool {
        self.pos <= self.segs@.len()
    }
}

impl View for Iter {
    type V = Seq<Seq<char>>;

    /// The segments not yet yielded.
    closed spec fn view(&self) -> Seq<Seq<char>> {
        self.segs@.skip(self.pos as int).map_values(|s: String| s@)
    }
}

impl Iter {
    /// Yield the next segment, if any.
    pub fn next(&mut self) -> (r: Option<String>)
        ensures
            old(self)@.len() == 0 ==> r is None && final(self)@ == old(self)@,
            old(self)@.len() > 0 ==> (r matches Some(s) && s@ == old(self)@[0]
                && final(self)@ == old(self)@.drop_first()),
    {
        proof { use_type_invariant(&*self); }
        if self.pos < self.segs.len() {
            let s = self.segs[self.pos].clone();
            let ghost before = self@;
            self.pos = self.pos + 1;
            assert(self@ =~= before.drop_first());
            Some(s)
        } else {
            assert(self@ =~= Seq::<Seq<char>>::empty());
            None
        }
    }

    /// All remaining segments, in order.
    pub fn collect(self) -> (v: Vec<String>)
        ensures
            v@.map_values(|s: String| s@) == self@,
    {
        proof { use_type_invariant(&self); }
        let mut out: Vec<String> = Vec::new();
        let mut i = self.pos;
        while i < self.segs.len()
            invariant
                self.pos <= i <= self.segs@.len(),
                out@.len() == i - self.pos,
                forall|k: int| 0 <= k < out@.len() ==> #[trigger] out@[k] == self.segs@[self.pos + k],
            decreases self.segs@.len() - i,
        {
            out.push(self.segs[i].clone());
            i = i + 1;
        }
        assert(out@.map_values(|s: String| s@) =~= self@);
        out
    }
}

impl<'a> TryFrom<&'a str> for Path {
    type Error = PathError;

    /// The same as [`Path::parse`].
    fn try_from(s: &'a str) -> (r: Result<Path, PathError>)
        ensures
            match path_parse_spec(s@) {
                Ok(t) => (r matches Ok(p) && p@ == t),
                Err(e) => r == Err::<Path, PathError>(e),
            },
    {
        Path::parse(s)
    }
}

impl<'a> vstd::std_specs::convert::TryFromSpecImpl<&'a str> for Path {
    open spec fn obeys_try_from_spec() -> bool {
        false
    }

    open spec fn try_from_spec(s: &'a str) -> Result<Path, PathError> {
        arbitrary()
    }
}

} // verus!
