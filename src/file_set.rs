use vstd::prelude::*;
use vstd::string::*;

verus! {

/// Strict lexicographic order on strings, by code point.
pub open spec fn lex_lt(a: Seq<char>, b: Seq<char>) -> bool
    decreases a.len(),
{
    if a.len() == 0 {
        b.len() > 0
    } else if b.len() == 0 {
        false
    } else if (a[0] as int) < (b[0] as int) {
        true
    } else if a[0] == b[0] {
        lex_lt(a.drop_first(), b.drop_first())
    } else {
        false
    }
}

pub proof fn lemma_lex_irreflexive(a: Seq<char>)
    ensures
        !lex_lt(a, a),
    decreases a.len(),
{
    if a.len() > 0 {
        lemma_lex_irreflexive(a.drop_first());
    }
}

pub proof fn lemma_lex_transitive(a: Seq<char>, b: Seq<char>, c: Seq<char>)
    requires
        lex_lt(a, b),
        lex_lt(b, c),
    ensures
        lex_lt(a, c),
    decreases a.len(),
{
    if a.len() > 0 && b.len() > 0 && c.len() > 0 && a[0] == b[0] && b[0] == c[0] {
        lemma_lex_transitive(a.drop_first(), b.drop_first(), c.drop_first());
    }
}

pub proof fn lemma_lex_total(a: Seq<char>, b: Seq<char>)
    requires
        a != b,
    ensures
        lex_lt(a, b) || lex_lt(b, a),
    decreases a.len(),
{
    if a.len() == 0 && b.len() == 0 {
        assert(a =~= b);
    }
    if a.len() > 0 && b.len() > 0 && a[0] != b[0] {
        assert((a[0] as int) != (b[0] as int));
    }
    if a.len() > 0 && b.len() > 0 && a[0] == b[0] {
        if a.drop_first() == b.drop_first() {
            assert(a =~= seq![a[0]] + a.drop_first());
            assert(b =~= seq![b[0]] + b.drop_first());
        }
        lemma_lex_total(a.drop_first(), b.drop_first());
    }
}

/// Compares two strings in lexicographic order.
pub fn str_lt(a: &str, b: &str) -> (r: bool)
    ensures
        r == lex_lt(a@, b@),
{
    let n = a.unicode_len();
    let m = b.unicode_len();
    let mut i: usize = 0;
    assert(a@.subrange(0, n as int) =~= a@);
    assert(b@.subrange(0, m as int) =~= b@);
    assert(a@.subrange(0, 0) =~= b@.subrange(0, 0));
    while i < n && i < m
        invariant
            n == a@.len(),
            m == b@.len(),
            i <= n,
            i <= m,
            a@.subrange(0, i as int) == b@.subrange(0, i as int),
            lex_lt(a@, b@) == lex_lt(a@.subrange(i as int, n as int), b@.subrange(i as int, m as int)),
        decreases n - i,
    {
        let x = a.get_char(i);
        let y = b.get_char(i);
        let ghost sa = a@.subrange(i as int, n as int);
        let ghost sb = b@.subrange(i as int, m as int);
        assert(sa[0] == x && sb[0] == y);
        if x < y {
            return true;
        }
        if x != y {
            return false;
        }
        assert(sa.drop_first() =~= a@.subrange(i + 1, n as int));
        assert(sb.drop_first() =~= b@.subrange(i + 1, m as int));
        assert(a@.subrange(0, i + 1) =~= a@.subrange(0, i as int).push(x));
        assert(b@.subrange(0, i + 1) =~= b@.subrange(0, i as int).push(y));
        i = i + 1;
    }
    i == n && i < m
}

/// A mapping from logical paths to file contents, kept in lexicographic order of path.
#[derive(Clone, Debug)]
pub struct FileSet {
    entries: Vec<(String, String)>,
}

pub open spec fn entry_view(e: (String, String)) -> (Seq<char>, Seq<char>) {
    (e.0@, e.1@)
}

impl View for FileSet {
    type V = Seq<(Seq<char>, Seq<char>)>;

    closed spec fn view(&self) -> Seq<(Seq<char>, Seq<char>)> {
        self.entries@.map_values(|e: (String, String)| entry_view(e))
    }
}

/// Paths strictly increasing, hence unique.
pub open spec fn sorted_keys(s: Seq<(Seq<char>, Seq<char>)>) -> bool {
    forall|i: int, j: int| 0 <= i < j < s.len() ==> lex_lt(#[trigger] s[i].0, #[trigger] s[j].0)
}

pub open spec fn keys_distinct(s: Seq<(Seq<char>, Seq<char>)>) -> bool {
    forall|i: int, j: int| 0 <= i < s.len() && 0 <= j < s.len() && i != j ==> #[trigger] s[i].0 != #[trigger] s[j].0
}

pub proof fn lemma_sorted_distinct(s: Seq<(Seq<char>, Seq<char>)>)
    requires
        sorted_keys(s),
    ensures
        keys_distinct(s),
{
    assert forall|i: int, j: int| 0 <= i < s.len() && 0 <= j < s.len() && i != j implies #[trigger] s[i].0
        != #[trigger] s[j].0 by {
        if i < j {
            assert(lex_lt(s[i].0, s[j].0));
            lemma_lex_irreflexive(s[i].0);
        } else {
            assert(lex_lt(s[j].0, s[i].0));
            lemma_lex_irreflexive(s[j].0);
        }
    }
}

pub open spec fn has_key(s: Seq<(Seq<char>, Seq<char>)>, k: Seq<char>) -> bool {
    exists|i: int| 0 <= i < s.len() && (#[trigger] s[i]).0 == k
}

impl FileSet {
    pub open spec fn wf(&self) -> bool {
        sorted_keys(self@)
    }

    pub fn new() -> (r: FileSet)
        ensures
            r.wf(),
            r@ == Seq::<(Seq<char>, Seq<char>)>::empty(),
    {
        let r = FileSet { entries: Vec::new() };
        assert(r@ =~= Seq::<(Seq<char>, Seq<char>)>::empty());
        r
    }

    pub fn len(&self) -> (r: usize)
        ensures
            r == self@.len(),
    {
        self.entries.len()
    }

    pub fn is_empty(&self) -> (r: bool)
        ensures
            r == (self@.len() == 0),
    {
        self.entries.len() == 0
    }

    /// The path and content of the entry at `i`, in path order.
    pub fn entry(&self, i: usize) -> (r: (&str, &str))
        requires
            i < self@.len(),
        ensures
            r.0@ == self@[i as int].0,
            r.1@ == self@[i as int].1,
    {
        let e = &self.entries[i];
        (e.0.as_str(), e.1.as_str())
    }

    /// Binds `path` to `content`, replacing an earlier content for the same path.
    pub fn insert(&mut self, path: &str, content: &str)
        requires
            old(self).wf(),
        ensures
            final(self).wf(),
            has_key(old(self)@, path@) ==> final(self)@.len() == old(self)@.len(),
            !has_key(old(self)@, path@) ==> final(self)@.len() == old(self)@.len() + 1,
            has_key(final(self)@, path@),
            forall|i: int| 0 <= i < final(self)@.len() && (#[trigger] final(self)@[i]).0 == path@ ==> final(self)@[i].1
                == content@,
            forall|k: Seq<char>| k != path@ ==> (has_key(final(self)@, k) <==> has_key(old(self)@, k)),
            forall|i: int| 0 <= i < old(self)@.len() && (#[trigger] old(self)@[i]).0 != path@ ==> final(self)@.contains(
                old(self)@[i]),
            forall|i: int| 0 <= i < final(self)@.len() && (#[trigger] final(self)@[i]).0 != path@ ==> old(self)@.contains(
                final(self)@[i]),
    {
        let ghost s0 = self@;
        let n = self.entries.len();
        let mut j: usize = 0;
        while j < n && str_lt(self.entries[j].0.as_str(), path)
            invariant
                n == self@.len(),
                self@ == s0,
                sorted_keys(s0),
                j <= n,
                forall|i: int| 0 <= i < j ==> lex_lt(#[trigger] s0[i].0, path@),
            decreases n - j,
        {
            j = j + 1;
        }
        proof {
            assert forall|i: int| 0 <= i < j implies s0[i].0 != path@ by {
                lemma_lex_irreflexive(path@);
            }
        }
        let entry = (String::from_str(path), String::from_str(content));
        if j < n && {
            let k = self.entries[j].0.as_str();
            !str_lt(path, k)
        } {
            proof {
                assert(s0[j as int].0 == path@) by {
                    if s0[j as int].0 != path@ {
                        lemma_lex_total(s0[j as int].0, path@);
                    }
                }
                lemma_sorted_distinct(s0);
            }
            self.entries.set(j, entry);
            assert(self@ =~= s0.update(j as int, (path@, content@)));
            assert(self@[j as int].0 == path@);
            assert(has_key(self@, path@));
            assert forall|k: Seq<char>| k != path@ implies (has_key(self@, k) <==> has_key(s0, k)) by {
                if has_key(s0, k) {
                    let i = choose|i: int| 0 <= i < s0.len() && (#[trigger] s0[i]).0 == k;
                    assert(self@[i].0 == k);
                }
                if has_key(self@, k) {
                    let i = choose|i: int| 0 <= i < self@.len() && (#[trigger] self@[i]).0 == k;
                    assert(s0[i].0 == k);
                }
            }
            assert forall|i: int| 0 <= i < s0.len() && (#[trigger] s0[i]).0 != path@ implies self@.contains(s0[i]) by {
                assert(self@[i] == s0[i]);
            }
            assert forall|i: int| 0 <= i < self@.len() && (#[trigger] self@[i]).0 != path@ implies s0.contains(self@[i]) by {
                assert(self@[i] == s0[i]);
            }
        } else {
            proof {
                if j < n {
                    lemma_lex_total(s0[j as int].0, path@);
                }
                assert(!has_key(s0, path@)) by {
                    if has_key(s0, path@) {
                        let i = choose|i: int| 0 <= i < s0.len() && (#[trigger] s0[i]).0 == path@;
                        if i >= j {
                            if i > j {
                                assert(lex_lt(s0[j as int].0, s0[i].0));
                                lemma_lex_transitive(path@, s0[j as int].0, s0[i].0);
                            }
                            lemma_lex_irreflexive(path@);
                        }
                    }
                }
            }
            self.entries.insert(j, entry);
            let ghost s1 = self@;
            assert(s1 =~= s0.insert(j as int, (path@, content@)));
            assert(sorted_keys(s1)) by {
                assert forall|a: int, b: int| 0 <= a < b < s1.len() implies lex_lt(#[trigger] s1[a].0, #[trigger] s1[b].0) by {
                    if b < j {
                    } else if a < j && b == j {
                    } else if a < j && b > j {
                        assert(s1[b] == s0[b - 1]);
                        if b - 1 > j {
                            assert(lex_lt(s0[j as int].0, s0[b - 1].0));
                            lemma_lex_transitive(s0[a].0, path@, s0[j as int].0);
                            lemma_lex_transitive(s0[a].0, s0[j as int].0, s0[b - 1].0);
                        } else {
                            lemma_lex_transitive(s0[a].0, path@, s0[j as int].0);
                        }
                    } else if a == j {
                        assert(s1[b] == s0[b - 1]);
                        if b - 1 > j {
                            assert(lex_lt(s0[j as int].0, s0[b - 1].0));
                            lemma_lex_transitive(path@, s0[j as int].0, s0[b - 1].0);
                        }
                    } else {
                        assert(s1[a] == s0[a - 1] && s1[b] == s0[b - 1]);
                    }
                }
            }
            assert(s1[j as int].0 == path@);
            assert forall|i: int| 0 <= i < s1.len() && (#[trigger] s1[i]).0 == path@ implies s1[i].1 == content@ by {
                if i < j {
                    assert(s1[i] == s0[i]);
                } else if i > j {
                    assert(s1[i] == s0[i - 1]);
                }
            }
            assert forall|k: Seq<char>| k != path@ implies (has_key(s1, k) <==> has_key(s0, k)) by {
                if has_key(s0, k) {
                    let i = choose|i: int| 0 <= i < s0.len() && (#[trigger] s0[i]).0 == k;
                    if i < j {
                        assert(s1[i] == s0[i]);
                    } else {
                        assert(s1[i + 1] == s0[i]);
                    }
                }
                if has_key(s1, k) {
                    let i = choose|i: int| 0 <= i < s1.len() && (#[trigger] s1[i]).0 == k;
                    if i < j {
                        assert(s0[i] == s1[i]);
                    } else {
                        assert(s0[i - 1] == s1[i]);
                    }
                }
            }
            assert forall|i: int| 0 <= i < s0.len() && (#[trigger] s0[i]).0 != path@ implies s1.contains(s0[i]) by {
                if i < j {
                    assert(s1[i] == s0[i]);
                } else {
                    assert(s1[i + 1] == s0[i]);
                }
            }
            assert forall|i: int| 0 <= i < s1.len() && (#[trigger] s1[i]).0 != path@ implies s0.contains(s1[i]) by {
                if i < j {
                    assert(s0[i] == s1[i]);
                } else {
                    assert(s0[i - 1] == s1[i]);
                }
            }
        }
    }

    /// Whether some entry has exactly the path `path`.
    pub fn contains_key(&self, path: &str) -> (r: bool)
        ensures
            r == has_key(self@, path@),
    {
        let n = self.entries.len();
        let mut i: usize = 0;
        while i < n
            invariant
                n == self@.len(),
                i <= n,
                forall|j: int| 0 <= j < i ==> (#[trigger] self@[j]).0 != path@,
            decreases n - i,
        {
            if self.entries[i].0 == String::from_str(path) {
                assert(self@[i as int].0 == path@);
                return true;
            }
            i = i + 1;
        }
        false
    }
}

} // verus!
