//! Character-level rules shared by the path types: splitting a text
//! on `/` and reading a `&str` character by character.

use vstd::prelude::*;

verus! {

/// The pieces of `s` between slashes, in order. A text without a
/// slash is one piece; every slash starts a new (possibly empty) piece.
pub open spec fn split_slash(s: Seq<char>) -> Seq<Seq<char>>
    decreases s.len(),
{
    if s.len() == 0 {
        seq![Seq::<char>::empty()]
    } else {
        let r = split_slash(s.drop_last());
        if s.last() == '/' {
            r.push(Seq::<char>::empty())
        } else {
            r.update(r.len() - 1, r.last().push(s.last()))
        }
    }
}

/// Every piece of `pieces` is non-empty.
pub open spec fn no_empty_piece(pieces: Seq<Seq<char>>) -> bool {
    forall|i: int| 0 <= i < pieces.len() ==> #[trigger] pieces[i].len() > 0
}

/// `/seg₁/.../segₙ` for the given segments (empty for no segments).
pub open spec fn join_segments(segs: Seq<Seq<char>>) -> Seq<char>
    decreases segs.len(),
{
    if segs.len() == 0 {
        Seq::<char>::empty()
    } else {
        join_segments(segs.drop_last()) + seq!['/'] + segs.last()
    }
}

pub proof fn lemma_split_slash_nonempty(s: Seq<char>)
    ensures
        split_slash(s).len() >= 1,
    decreases s.len(),
{
    if s.len() > 0 {
        lemma_split_slash_nonempty(s.drop_last());
    }
}

/// The pieces of a text hold no slash.
pub proof fn lemma_split_slash_pieces_slash_free(s: Seq<char>)
    ensures
        forall|i: int| 0 <= i < split_slash(s).len() ==> !(#[trigger] split_slash(s)[i]).contains('/'),
    decreases s.len(),
{
    lemma_split_slash_nonempty(s);
    if s.len() > 0 {
        lemma_split_slash_pieces_slash_free(s.drop_last());
        lemma_split_slash_nonempty(s.drop_last());
        let r = split_slash(s.drop_last());
        if s.last() != '/' {
            assert forall|i: int| 0 <= i < split_slash(s).len() implies !(#[trigger] split_slash(s)[i]).contains('/') by {
                if i == r.len() - 1 {
                    let p = r.last().push(s.last());
                    if p.contains('/') {
                        let k = choose|k: int| 0 <= k < p.len() && p[k] == '/';
                        if k < r.last().len() {
                            assert(r.last()[k] == '/');
                        }
                    }
                }
            }
        } else {
            assert forall|i: int| 0 <= i < split_slash(s).len() implies !(#[trigger] split_slash(s)[i]).contains('/') by {
                if i < r.len() {
                    assert(split_slash(s)[i] == r[i]);
                }
            }
        }
    }
}

/// A text without slashes is a single piece.
pub proof fn lemma_split_slash_no_slash(s: Seq<char>)
    requires
        !s.contains('/'),
    ensures
        split_slash(s) == seq![s],
    decreases s.len(),
{
    if s.len() > 0 {
        assert(!s.drop_last().contains('/')) by {
            if s.drop_last().contains('/') {
                let k = choose|k: int| 0 <= k < s.drop_last().len() && s.drop_last()[k] == '/';
                assert(s[k] == '/');
            }
        }
        lemma_split_slash_no_slash(s.drop_last());
        assert(s.last() != '/') by {
            assert(s[s.len() - 1] == s.last());
        }
        assert(s.drop_last().push(s.last()) =~= s);
        let r = split_slash(s.drop_last());
        assert(split_slash(s) == r.update(r.len() - 1, r.last().push(s.last())));
        assert(split_slash(s) =~= seq![s]);
    } else {
        assert(s =~= Seq::<char>::empty());
    }
}

/// Appending `/seg` to a text appends `seg` as a new piece.
pub proof fn lemma_split_slash_append(s: Seq<char>, seg: Seq<char>)
    requires
        !seg.contains('/'),
    ensures
        split_slash(s + seq!['/'] + seg) == split_slash(s).push(seg),
    decreases seg.len(),
{
    if seg.len() == 0 {
        let t = s + seq!['/'] + seg;
        assert(t.drop_last() =~= s);
        assert(t.last() == '/');
        assert(seg =~= Seq::<char>::empty());
        assert(split_slash(t) == split_slash(t.drop_last()).push(Seq::<char>::empty()));
    } else {
        let t = s + seq!['/'] + seg;
        assert(!seg.drop_last().contains('/')) by {
            if seg.drop_last().contains('/') {
                let k = choose|k: int| 0 <= k < seg.drop_last().len() && seg.drop_last()[k] == '/';
                assert(seg[k] == '/');
            }
        }
        lemma_split_slash_append(s, seg.drop_last());
        assert(t.drop_last() =~= s + seq!['/'] + seg.drop_last());
        assert(t.last() == seg.last());
        assert(seg.last() != '/') by {
            assert(seg[seg.len() - 1] == seg.last());
        }
        assert(seg.drop_last().push(seg.last()) =~= seg);
        let r = split_slash(t.drop_last());
        lemma_split_slash_nonempty(s);
        assert(split_slash(t) == r.update(r.len() - 1, r.last().push(t.last())));
        assert(split_slash(t) =~= split_slash(s).push(seg));
    }
}

/// Every slash of `u` follows a character that is not a slash.
pub open spec fn slashes_separate(u: Seq<char>) -> bool {
    forall|i: int| 0 <= i < u.len() && #[trigger] u[i] == '/' ==> i > 0 && u[i - 1] != '/'
}

/// `t` is a slash followed by at least one character, does not end with
/// a slash, and holds no two slashes in a row.
pub open spec fn slash_text_ok(t: Seq<char>) -> bool {
    &&& t.len() >= 2
    &&& t[0] == '/'
    &&& t.last() != '/'
    &&& forall|j: int| 0 <= j < t.len() - 1 ==> !(#[trigger] t[j] == '/' && t[j + 1] == '/')
}

/// The pieces of `u` are non-empty, at the level of characters: all
/// but the last are exactly when every slash follows a non-slash, and
/// the last is when `u` does not end with a slash.
pub proof fn lemma_split_slash_pieces_chars(u: Seq<char>)
    ensures
        no_empty_piece(split_slash(u).drop_last()) == slashes_separate(u),
        (split_slash(u).last().len() > 0) == (u.len() > 0 && u.last() != '/'),
        no_empty_piece(split_slash(u)) == (slashes_separate(u) && u.len() > 0 && u.last() != '/'),
    decreases u.len(),
{
    let sp = split_slash(u);
    lemma_split_slash_nonempty(u);
    if u.len() > 0 {
        let d = u.drop_last();
        let r = split_slash(d);
        lemma_split_slash_pieces_chars(d);
        lemma_split_slash_nonempty(d);
        if u.last() == '/' {
            assert(sp == r.push(Seq::<char>::empty()));
            assert(sp.drop_last() =~= r);
            assert(slashes_separate(u) == (slashes_separate(d) && d.len() > 0 && d.last() != '/')) by {
                if slashes_separate(u) {
                    assert(u[u.len() - 1] == '/');
                    assert forall|i: int| 0 <= i < d.len() && #[trigger] d[i] == '/' implies i > 0 && d[i - 1] != '/' by {
                        assert(u[i] == d[i]);
                    }
                }
                if slashes_separate(d) && d.len() > 0 && d.last() != '/' {
                    assert forall|i: int| 0 <= i < u.len() && #[trigger] u[i] == '/' implies i > 0 && u[i - 1] != '/' by {
                        if i < d.len() {
                            assert(u[i] == d[i]);
                        }
                    }
                }
            }
        } else {
            assert(sp == r.update(r.len() - 1, r.last().push(u.last())));
            assert(sp.drop_last() =~= r.drop_last());
            assert(slashes_separate(u) == slashes_separate(d)) by {
                if slashes_separate(u) {
                    assert forall|i: int| 0 <= i < d.len() && #[trigger] d[i] == '/' implies i > 0 && d[i - 1] != '/' by {
                        assert(u[i] == d[i]);
                    }
                }
                if slashes_separate(d) {
                    assert forall|i: int| 0 <= i < u.len() && #[trigger] u[i] == '/' implies i > 0 && u[i - 1] != '/' by {
                        if i < d.len() {
                            assert(u[i] == d[i]);
                        }
                    }
                }
            }
        }
    } else {
        assert(sp.drop_last() =~= Seq::<Seq<char>>::empty());
    }
    assert(no_empty_piece(sp) == (no_empty_piece(sp.drop_last()) && sp.last().len() > 0)) by {
        if no_empty_piece(sp.drop_last()) && sp.last().len() > 0 {
            assert forall|k: int| 0 <= k < sp.len() implies #[trigger] sp[k].len() > 0 by {
                if k < sp.len() - 1 {
                    assert(sp[k] == sp.drop_last()[k]);
                }
            }
        }
        if no_empty_piece(sp) {
            assert(sp[sp.len() - 1].len() > 0);
            assert forall|k: int| 0 <= k < sp.drop_last().len() implies #[trigger] sp.drop_last()[k].len() > 0 by {
                assert(sp[k] == sp.drop_last()[k]);
            }
        }
    }
}

/// A text that starts with a slash has non-empty pieces after that
/// slash exactly when it is a [`slash_text_ok`] text.
pub proof fn lemma_slash_text_ok(t: Seq<char>)
    requires
        t.len() > 0,
        t[0] == '/',
    ensures
        no_empty_piece(split_slash(t.skip(1))) == slash_text_ok(t),
{
    let u = t.skip(1);
    lemma_split_slash_pieces_chars(u);
    if u.len() > 0 {
        assert(u.last() == t.last());
    }
    assert(slashes_separate(u) == (forall|j: int| 0 <= j < t.len() - 1 ==> !(#[trigger] t[j] == '/' && t[j + 1] == '/'))) by {
        if slashes_separate(u) {
            assert forall|j: int| 0 <= j < t.len() - 1 implies !(#[trigger] t[j] == '/' && t[j + 1] == '/') by {
                if t[j + 1] == '/' {
                    assert(u[j] == t[j + 1]);
                    if j > 0 {
                        assert(u[j - 1] == t[j]);
                    }
                }
            }
        }
        if forall|j: int| 0 <= j < t.len() - 1 ==> !(#[trigger] t[j] == '/' && t[j + 1] == '/') {
            assert forall|i: int| 0 <= i < u.len() && #[trigger] u[i] == '/' implies i > 0 && u[i - 1] != '/' by {
                assert(t[i + 1] == u[i]);
                assert(!(t[i] == '/' && t[i + 1] == '/'));
                if i > 0 {
                    assert(u[i - 1] == t[i]);
                }
            }
        }
    }
}

/// Joining the pieces of `u` after a slash gives back the slash and `u`.
pub proof fn lemma_join_split(u: Seq<char>)
    ensures
        join_segments(split_slash(u)) == seq!['/'] + u,
    decreases u.len(),
{
    let sp = split_slash(u);
    lemma_split_slash_nonempty(u);
    if u.len() == 0 {
        assert(sp == seq![Seq::<char>::empty()]);
        assert(sp.drop_last() =~= Seq::<Seq<char>>::empty());
        assert(join_segments(sp.drop_last()) == Seq::<char>::empty());
        assert(join_segments(sp) == join_segments(sp.drop_last()) + seq!['/'] + sp.last());
        assert(join_segments(sp) =~= seq!['/'] + u);
    } else {
        let d = u.drop_last();
        let r = split_slash(d);
        lemma_join_split(d);
        lemma_split_slash_nonempty(d);
        if u.last() == '/' {
            assert(sp == r.push(Seq::<char>::empty()));
            assert(sp.drop_last() =~= r);
            assert(join_segments(sp) == join_segments(r) + seq!['/'] + Seq::<char>::empty());
            assert(u =~= d.push('/'));
            assert(join_segments(sp) =~= seq!['/'] + u);
        } else {
            assert(sp == r.update(r.len() - 1, r.last().push(u.last())));
            assert(sp.drop_last() =~= r.drop_last());
            assert(join_segments(r) == join_segments(r.drop_last()) + seq!['/'] + r.last());
            assert(sp.last() == r.last().push(u.last()));
            assert(join_segments(sp) == join_segments(r.drop_last()) + seq!['/'] + r.last().push(u.last()));
            assert(u =~= d.push(u.last()));
            let a = join_segments(r.drop_last()) + seq!['/'];
            assert(a + r.last().push(u.last()) =~= (a + r.last()).push(u.last()));
            assert((seq!['/'] + d).push(u.last()) =~= seq!['/'] + u);
            assert(join_segments(sp) =~= seq!['/'] + u);
        }
    }
}

/// Splitting `/seg₁/.../segₙ` after its first slash gives the segments back.
pub proof fn lemma_split_join(segs: Seq<Seq<char>>)
    requires
        segs.len() > 0,
        forall|i: int| 0 <= i < segs.len() ==> !(#[trigger] segs[i]).contains('/'),
    ensures
        join_segments(segs).len() > 0,
        join_segments(segs)[0] == '/',
        split_slash(join_segments(segs).skip(1)) == segs,
    decreases segs.len(),
{
    let j = join_segments(segs);
    if segs.len() == 1 {
        assert(join_segments(segs.drop_last()) =~= Seq::<char>::empty());
        assert(j =~= seq!['/'] + segs[0]);
        assert(j.skip(1) =~= segs[0]);
        lemma_split_slash_no_slash(segs[0]);
        assert(segs =~= seq![segs[0]]);
    } else {
        let prev = segs.drop_last();
        lemma_split_join(prev);
        let jp = join_segments(prev);
        assert(j == jp + seq!['/'] + segs.last());
        assert(j.skip(1) =~= jp.skip(1) + seq!['/'] + segs.last());
        assert(!segs.last().contains('/')) by {
            assert(segs[segs.len() - 1] == segs.last());
        }
        lemma_split_slash_append(jp.skip(1), segs.last());
        assert(prev.push(segs.last()) =~= segs);
    }
}

/// A copy of the characters of `s`.
pub fn chars_of(s: &str) -> (v: Vec<char>)
    ensures
        v@ == s@,
{
    let n = s.unicode_len();
    let mut v: Vec<char> = Vec::new();
    let mut i: usize = 0;
    while i < n
        invariant
            n == s@.len(),
            i <= n,
            v@ == s@.take(i as int),
        decreases n - i,
    {
        let c = s.get_char(i);
        v.push(c);
        i = i + 1;
        assert(v@ =~= s@.take(i as int));
    }
    assert(v@ =~= s@);
    v
}

/// Whether two texts are equal.
pub fn str_eq(a: &str, b: &str) -> (r: bool)
    ensures
        r == (a@ == b@),
{
    let x = chars_of(a);
    let y = chars_of(b);
    if x.len() != y.len() {
        return false;
    }
    let mut i: usize = 0;
    while i < x.len()
        invariant
            x@ == a@,
            y@ == b@,
            x@.len() == y@.len(),
            i <= x@.len(),
            forall|k: int| 0 <= k < i ==> x@[k] == y@[k],
        decreases x@.len() - i,
    {
        if x[i] != y[i] {
            return false;
        }
        i = i + 1;
    }
    assert(a@ =~= b@);
    true
}

/// Whether `s` holds a slash.
pub fn has_slash(s: &str) -> (b: bool)
    ensures
        b == s@.contains('/'),
{
    let cs = chars_of(s);
    let mut i: usize = 0;
    while i < cs.len()
        invariant
            cs@ == s@,
            i <= cs@.len(),
            forall|k: int| 0 <= k < i ==> cs@[k] != '/',
        decreases cs@.len() - i,
    {
        if cs[i] == '/' {
            return true;
        }
        i = i + 1;
    }
    false
}

/// The pieces of `s` between slashes, as owned strings.
pub fn split_on_slash(s: &str) -> (v: Vec<String>)
    ensures
        v@.len() == split_slash(s@).len(),
        forall|i: int| 0 <= i < v@.len() ==> #[trigger] v@[i]@ == split_slash(s@)[i],
{
    let cs = chars_of(s);
    let n = cs.len();
    let mut out: Vec<String> = Vec::new();
    let mut start: usize = 0;
    let mut i: usize = 0;
    while i < n
        invariant
            n == s@.len(),
            cs@ == s@,
            start <= i <= n,
            out@.len() + 1 == split_slash(s@.take(i as int)).len(),
            forall|k: int| 0 <= k < out@.len() ==> #[trigger] out@[k]@ == split_slash(s@.take(i as int))[k],
            split_slash(s@.take(i as int)).last() == s@.subrange(start as int, i as int),
        decreases n - i,
    {
        let ghost prev = split_slash(s@.take(i as int));
        assert(s@.take(i + 1).drop_last() =~= s@.take(i as int));
        assert(s@.take(i + 1).last() == s@[i as int]);
        if cs[i] == '/' {
            let piece = s.substring_char(start, i);
            out.push(piece.to_owned());
            start = i + 1;
            assert(s@.subrange(start as int, (i + 1) as int) =~= Seq::<char>::empty());
        } else {
            assert(s@.subrange(start as int, (i + 1) as int) =~= s@.subrange(start as int, i as int).push(s@[i as int]));
        }
        i = i + 1;
    }
    let last = s.substring_char(start, n);
    out.push(last.to_owned());
    assert(s@.take(n as int) =~= s@);
    out
}

} // verus!
