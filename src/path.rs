use vstd::prelude::*;
use vstd::string::*;

verus! {

/// Why a logical path was rejected.
#[derive(Clone, Copy, Debug, PartialEq, Eq, Structural)]
pub enum PathError {
    /// The path is the empty string.
    Empty,
    /// The path starts or ends with `/`.
    AbsoluteOrTrailingSlash,
    /// Some segment is empty, `.` or `..`.
    IllegalSegment,
}

/// The segments of `p` between its `/` separators, built one character at a time.
pub open spec fn split_path(p: Seq<char>) -> Seq<Seq<char>>
    decreases p.len(),
{
    if p.len() == 0 {
        seq![Seq::<char>::empty()]
    } else {
        let s = split_path(p.drop_last());
        if p.last() == '/' {
            s.push(Seq::<char>::empty())
        } else {
            s.update(s.len() - 1, s.last().push(p.last()))
        }
    }
}

/// The segments joined back with `/` between each two of them.
pub open spec fn join_path(segs: Seq<Seq<char>>) -> Seq<char>
    decreases segs.len(),
{
    if segs.len() == 0 {
        Seq::<char>::empty()
    } else if segs.len() == 1 {
        segs[0]
    } else {
        join_path(segs.drop_last()) + seq!['/'] + segs.last()
    }
}

/// A segment may stand in a logical path: it is not empty, `.` or `..`.
pub open spec fn is_legal_segment(s: Seq<char>) -> bool {
    s.len() > 0 && s != seq!['.'] && s != seq!['.', '.']
}

pub open spec fn starts_or_ends_with_slash(p: Seq<char>) -> bool {
    p.len() > 0 && (p[0] == '/' || p.last() == '/')
}

/// The outcome of validating `p`, first failing rule first.
pub open spec fn validate_spec(p: Seq<char>) -> Result<Seq<Seq<char>>, PathError> {
    if p.len() == 0 {
        Err(PathError::Empty)
    } else if starts_or_ends_with_slash(p) {
        Err(PathError::AbsoluteOrTrailingSlash)
    } else if exists|i: int| 0 <= i < split_path(p).len() && !is_legal_segment(#[trigger] split_path(p)[i]) {
        Err(PathError::IllegalSegment)
    } else {
        Ok(split_path(p))
    }
}

/// A well-formed logical path.
pub open spec fn is_valid_path(p: Seq<char>) -> bool {
    validate_spec(p) is Ok
}

pub open spec fn strings_view(v: Seq<String>) -> Seq<Seq<char>> {
    v.map_values(|s: String| s@)
}

pub proof fn lemma_split_nonempty(p: Seq<char>)
    ensures
        split_path(p).len() >= 1,
    decreases p.len(),
{
    if p.len() > 0 {
        lemma_split_nonempty(p.drop_last());
    }
}

pub proof fn lemma_join_split(p: Seq<char>)
    ensures
        join_path(split_path(p)) == p,
    decreases p.len(),
{
    if p.len() > 0 {
        let q = p.drop_last();
        let s = split_path(q);
        lemma_split_nonempty(q);
        lemma_join_split(q);
        if p.last() == '/' {
            let t = s.push(Seq::<char>::empty());
            assert(t.drop_last() =~= s);
            assert(join_path(t) =~= p);
        } else {
            let t = s.update(s.len() - 1, s.last().push(p.last()));
            if s.len() == 1 {
                assert(join_path(t) =~= p);
            } else {
                assert(t.drop_last() =~= s.drop_last());
                assert(join_path(s) == join_path(s.drop_last()) + seq!['/'] + s.last());
                assert(t.last() == s.last().push(p.last()));
                assert(join_path(t) == join_path(s.drop_last()) + seq!['/'] + t.last());
                assert(p =~= q.push(p.last()));
                assert(join_path(t) =~= p);
            }
        }
    }
}

/// Joining the segments of a well-formed logical path with `/` gives the path back.
pub proof fn lemma_valid_path_round_trip(p: Seq<char>)
    requires
        is_valid_path(p),
    ensures
        validate_spec(p) == Ok::<Seq<Seq<char>>, PathError>(split_path(p)),
        join_path(split_path(p)) == p,
        forall|i: int| 0 <= i < split_path(p).len() ==> is_legal_segment(#[trigger] split_path(p)[i]),
{
    lemma_join_split(p);
}

/// A path that is empty, starts or ends with `/`, or holds a `..` segment is rejected.
pub proof fn lemma_malformed_path_rejected(p: Seq<char>)
    requires
        p.len() == 0 || p[0] == '/' || p.last() == '/'
            || exists|i: int| 0 <= i < split_path(p).len() && #[trigger] split_path(p)[i] == seq!['.', '.'],
    ensures
        validate_spec(p) is Err,
        !is_valid_path(p),
{
}

/// Splits a logical path into its segments, or says which rule it breaks.
pub fn split_virtual_path(path: &str) -> (r: Result<Vec<String>, PathError>)
    ensures
        match r {
            Ok(v) => validate_spec(path@) == Ok::<Seq<Seq<char>>, PathError>(strings_view(v@)),
            Err(e) => validate_spec(path@) == Err::<Seq<Seq<char>>, PathError>(e),
        },
{
    let n = path.unicode_len();
    if n == 0 {
        return Err(PathError::Empty);
    }
    if path.get_char(0) == '/' || path.get_char(n - 1) == '/' {
        return Err(PathError::AbsoluteOrTrailingSlash);
    }
    assert(!starts_or_ends_with_slash(path@));
    let mut segs: Vec<String> = Vec::new();
    let mut start: usize = 0;
    let mut i: usize = 0;
    assert(path@.subrange(0, 0) =~= Seq::<char>::empty());
    assert(strings_view(segs@).push(path@.subrange(0, 0)) =~= seq![Seq::<char>::empty()]);
    while i < n
        invariant
            n == path@.len(),
            n > 0,
            !starts_or_ends_with_slash(path@),
            start <= i <= n,
            strings_view(segs@).push(path@.subrange(start as int, i as int)) == split_path(
                path@.subrange(0, i as int),
            ),
        decreases n - i,
    {
        let c = path.get_char(i);
        let ghost pre = path@.subrange(0, i as int);
        assert(path@.subrange(0, i + 1).drop_last() =~= pre);
        if c == '/' {
            let seg = String::from_str(path.substring_char(start, i));
            segs.push(seg);
            start = i + 1;
            assert(strings_view(segs@) =~= split_path(pre));
            assert(path@.subrange(start as int, i + 1) =~= Seq::<char>::empty());
        } else {
            assert(path@.subrange(start as int, i + 1) =~= path@.subrange(start as int, i as int).push(c));
            assert(strings_view(segs@).push(path@.subrange(start as int, i + 1)) =~= split_path(pre).update(
                split_path(pre).len() - 1,
                split_path(pre).last().push(c),
            ));
        }
        i = i + 1;
    }
    let last = String::from_str(path.substring_char(start, n));
    segs.push(last);
    assert(path@.subrange(0, n as int) =~= path@);
    assert(strings_view(segs@) =~= split_path(path@));
    let mut k: usize = 0;
    while k < segs.len()
        invariant
            strings_view(segs@) == split_path(path@),
            path@.len() > 0,
            !starts_or_ends_with_slash(path@),
            k <= segs@.len(),
            forall|j: int| 0 <= j < k ==> is_legal_segment(#[trigger] split_path(path@)[j]),
        decreases segs@.len() - k,
    {
        let s = segs[k].as_str();
        assert(split_path(path@)[k as int] == s@);
        let m = s.unicode_len();
        let illegal = m == 0 || (m == 1 && s.get_char(0) == '.') || (m == 2 && s.get_char(0) == '.'
            && s.get_char(1) == '.');
        if illegal {
            assert(!is_legal_segment(split_path(path@)[k as int])) by {
                if m == 1 {
                    assert(s@ =~= seq!['.']);
                } else if m == 2 {
                    assert(s@ =~= seq!['.', '.']);
                }
            }
            assert(!starts_or_ends_with_slash(path@));
            assert(exists|i: int| 0 <= i < split_path(path@).len() && !is_legal_segment(#[trigger] split_path(path@)[i]));
            return Err(PathError::IllegalSegment);
        }
        assert(is_legal_segment(split_path(path@)[k as int])) by {
            if m == 1 {
                assert(s@ != seq!['.']);
            }
            if m == 2 {
                assert(s@[0] != '.' || s@[1] != '.');
                assert(s@ != seq!['.', '.']);
            }
        }
        k = k + 1;
    }
    Ok(segs)
}

} // verus!
