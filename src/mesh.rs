use vstd::prelude::*;

verus! {

/// One triangular face: for each corner, the 0-based indices of its
/// position, texture coordinate and normal.
#[derive(Clone, Copy, Debug, PartialEq, Eq)]
pub struct Triangle {
    pub t: [(usize, usize, usize); 3],
}

/// Every index of `c` is valid into arrays of the given lengths.
pub open spec fn corner_valid(c: (usize, usize, usize), n_pos: int, n_uv: int, n_norm: int) -> bool {
    c.0 < n_pos && c.1 < n_uv && c.2 < n_norm
}

impl Triangle {
    pub fn new(t1: (usize, usize, usize), t2: (usize, usize, usize), t3: (usize, usize, usize)) -> (r: Triangle)
        ensures
            r.t@ == seq![t1, t2, t3],
    {
        Triangle { t: [t1, t2, t3] }
    }

    /// The indices of corner `i`.
    pub fn corner(&self, i: usize) -> (c: (usize, usize, usize))
        requires
            i < 3,
        ensures
            c == self.t@[i as int],
    {
        self.t[i]
    }

    pub open spec fn indices_valid(&self, n_pos: int, n_uv: int, n_norm: int) -> bool {
        forall|i: int| 0 <= i < 3 ==> corner_valid(#[trigger] self.t@[i], n_pos, n_uv, n_norm)
    }

    pub fn is_valid(&self, n_pos: usize, n_uv: usize, n_norm: usize) -> (r: bool)
        ensures
            r == self.indices_valid(n_pos as int, n_uv as int, n_norm as int),
    {
        let mut i: usize = 0;
        while i < 3
            invariant
                i <= 3,
                forall|j: int| 0 <= j < i ==> corner_valid(#[trigger] self.t@[j], n_pos as int, n_uv as int, n_norm as int),
            decreases 3 - i,
        {
            let c = self.t[i];
            if c.0 >= n_pos || c.1 >= n_uv || c.2 >= n_norm {
                assert(!corner_valid(self.t@[i as int], n_pos as int, n_uv as int, n_norm as int));
                return false;
            }
            i = i + 1;
        }
        true
    }
}

/// Checks a mesh's faces before rendering: every index of every face must
/// lie within its array. A mesh that fails is rejected whole.
pub fn faces_valid(faces: &Vec<Triangle>, n_pos: usize, n_uv: usize, n_norm: usize) -> (r: bool)
    ensures
        r == forall|k: int|
            0 <= k < faces@.len() ==> (#[trigger] faces@[k]).indices_valid(n_pos as int, n_uv as int, n_norm as int),
{
    let mut k: usize = 0;
    while k < faces.len()
        invariant
            k <= faces@.len(),
            forall|j: int| 0 <= j < k ==> (#[trigger] faces@[j]).indices_valid(n_pos as int, n_uv as int, n_norm as int),
        decreases faces@.len() - k,
    {
        if !faces[k].is_valid(n_pos, n_uv, n_norm) {
            return false;
        }
        k = k + 1;
    }
    true
}

pub open spec fn is_digit(b: u8) -> bool {
    48 <= b <= 57
}

pub open spec fn all_digits(s: Seq<u8>) -> bool {
    forall|i: int| 0 <= i < s.len() ==> is_digit(#[trigger] s[i])
}

/// The number that a string of decimal digits spells.
pub open spec fn digits_value(s: Seq<u8>) -> int
    decreases s.len(),
{
    if s.len() == 0 {
        0
    } else {
        digits_value(s.drop_last()) * 10 + (s.last() - 48)
    }
}

/// A 1-based index as the file writes it: decimal digits, at least 1, and
/// small enough that its 0-based form fits in `usize`.
pub open spec fn is_index(s: Seq<u8>) -> bool {
    &&& s.len() > 0
    &&& all_digits(s)
    &&& 1 <= digits_value(s) <= usize::MAX + 1
}

/// `s` is a face corner `p/t/n` whose two slashes stand at `i` and `j`.
pub open spec fn corner_at(s: Seq<u8>, i: int, j: int) -> bool {
    &&& 0 < i < j < s.len()
    &&& s[i] == 47u8
    &&& s[j] == 47u8
    &&& is_index(s.subrange(0, i))
    &&& is_index(s.subrange(i + 1, j))
    &&& is_index(s.subrange(j + 1, s.len() as int))
}

/// The 0-based indices of the corner whose slashes stand at `i` and `j`.
pub open spec fn corner_indices(s: Seq<u8>, i: int, j: int) -> (int, int, int) {
    (
        digits_value(s.subrange(0, i)) - 1,
        digits_value(s.subrange(i + 1, j)) - 1,
        digits_value(s.subrange(j + 1, s.len() as int)) - 1,
    )
}

proof fn lemma_digits_prefix_grows(s: Seq<u8>, k: int)
    requires
        0 <= k <= s.len(),
        all_digits(s),
    ensures
        digits_value(s.subrange(0, k)) <= digits_value(s),
    decreases s.len() - k,
{
    if k < s.len() {
        lemma_digits_prefix_grows(s, k + 1);
        let t = s.subrange(0, k + 1);
        assert(t.drop_last() =~= s.subrange(0, k));
        assert(is_digit(s[k]));
        assert(digits_value(s.subrange(0, k)) >= 0) by {
            lemma_digits_nonneg(s.subrange(0, k));
        }
    } else {
        assert(s.subrange(0, k) =~= s);
    }
}

proof fn lemma_digits_nonneg(s: Seq<u8>)
    requires
        all_digits(s),
    ensures
        digits_value(s) >= 0,
    decreases s.len(),
{
    if s.len() > 0 {
        assert(all_digits(s.drop_last()));
        lemma_digits_nonneg(s.drop_last());
        assert(is_digit(s[s.len() - 1]));
    }
}

/// Reads `s[start..end]` as a 1-based index and returns its 0-based form.
fn parse_index(s: &[u8], start: usize, end: usize) -> (r: Option<usize>)
    requires
        start <= end <= s@.len(),
    ensures
        r is Some <==> is_index(s@.subrange(start as int, end as int)),
        r matches Some(v) ==> v == digits_value(s@.subrange(start as int, end as int)) - 1,
{
    let ghost seg = s@.subrange(start as int, end as int);
    if start == end {
        return None;
    }
    let mut v: u128 = 0;
    let mut k = start;
    while k < end
        invariant
            start <= k <= end <= s@.len(),
            seg == s@.subrange(start as int, end as int),
            all_digits(seg.subrange(0, k - start)),
            v == digits_value(seg.subrange(0, k - start)),
            v <= usize::MAX + 1,
        decreases end - k,
    {
        let b = s[k];
        if b < 48 || b > 57 {
            assert(!is_digit(seg[k - start]));
            return None;
        }
        proof {
            let t = seg.subrange(0, k + 1 - start);
            assert(t.drop_last() =~= seg.subrange(0, k - start));
            assert(t.last() == b);
        }
        v = v * 10 + (b - 48) as u128;
        proof {
            assert(all_digits(seg.subrange(0, k + 1 - start)));
        }
        if v > usize::MAX as u128 + 1 {
            proof {
                if all_digits(seg) {
                    lemma_digits_prefix_grows(seg, k + 1 - start);
                }
            }
            return None;
        }
        k = k + 1;
    }
    assert(seg.subrange(0, end - start) =~= seg);
    if v == 0 {
        return None;
    }
    Some((v - 1) as usize)
}

/// The first position at or after `from` in `s` that holds a slash, or
/// `s.len()` if none does.
fn find_slash(s: &[u8], from: usize) -> (r: usize)
    requires
        from <= s@.len(),
    ensures
        from <= r <= s@.len(),
        r < s@.len() ==> s@[r as int] == 47u8,
        forall|i: int| from <= i < r ==> s@[i] != 47u8,
{
    let mut k = from;
    while k < s.len()
        invariant
            from <= k <= s@.len(),
            forall|i: int| from <= i < k ==> s@[i] != 47u8,
        decreases s@.len() - k,
    {
        if s[k] == 47u8 {
            return k;
        }
        k = k + 1;
    }
    k
}

/// Parses one face corner `p/t/n` of an OBJ face line: three 1-based
/// indices, returned 0-based.
pub fn parse_corner(s: &[u8]) -> (r: Option<(usize, usize, usize)>)
    ensures
        r is Some <==> exists|i: int, j: int| corner_at(s@, i, j),
        r matches Some(c) ==> exists|i: int, j: int|
            corner_at(s@, i, j) && corner_indices(s@, i, j) == (c.0 as int, c.1 as int, c.2 as int),
{
    let i = find_slash(s, 0);
    if i == s.len() {
        proof {
            assert forall|a: int, b: int| !corner_at(s@, a, b) by {
                if corner_at(s@, a, b) {
                    assert(s@[a] == 47u8);
                }
            }
        }
        return None;
    }
    let j = find_slash(s, i + 1);
    if j == s.len() {
        proof {
            assert forall|a: int, b: int| !corner_at(s@, a, b) by {
                if corner_at(s@, a, b) {
                    lemma_unique_slashes(s@, a, b, i as int);
                }
            }
        }
        return None;
    }
    let p = parse_index(s, 0, i);
    let t = parse_index(s, i + 1, j);
    let n = parse_index(s, j + 1, s.len());
    proof {
        assert forall|a: int, b: int| corner_at(s@, a, b) implies a == i && b == j by {
            lemma_unique_slashes(s@, a, b, i as int);
            lemma_unique_slashes(s@, a, b, j as int);
        }
    }
    match (p, t, n) {
        (Some(p), Some(t), Some(n)) => {
            assert(corner_at(s@, i as int, j as int));
            Some((p, t, n))
        },
        _ => None,
    }
}

/// In a corner with slashes at `i` and `j`, no other position holds a slash.
proof fn lemma_unique_slashes(s: Seq<u8>, i: int, j: int, k: int)
    requires
        corner_at(s, i, j),
        0 <= k < s.len(),
        s[k] == 47u8,
    ensures
        k == i || k == j,
{
    if k < i {
        assert(s.subrange(0, i)[k] == s[k]);
    } else if i < k < j {
        assert(s.subrange(i + 1, j)[k - i - 1] == s[k]);
    } else if k > j {
        assert(s.subrange(j + 1, s.len() as int)[k - j - 1] == s[k]);
    }
}

} // verus!
