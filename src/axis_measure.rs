use vstd::prelude::*;

verus! {

/// Position of a row or column in the underlying dataset, stable across
/// re-ordering.
#[derive(Clone, Copy, Debug, PartialEq, Eq, Structural, Hash)]
pub struct LogIdx(pub usize);

/// Position of a row or column on screen, after sorting and filtering.
#[derive(Clone, Copy, Debug, PartialEq, Eq, Structural, Hash)]
pub struct VisIdx(pub usize);

/// Signed distance between two visual positions, used for relative movement.
#[derive(Clone, Copy, Debug, PartialEq, Eq, Structural, Hash)]
pub struct VisOffset(pub isize);

/// Which axis of the table is addressed.
#[derive(Clone, Copy, Debug, PartialEq, Eq, Structural, Hash)]
pub enum TableAxis {
    Rows,
    Columns,
}


/// Sum of the first `k` sizes of `s`: the pixel offset of visual index `k`.
pub open spec fn prefix_sum(s: Seq<u64>, k: int) -> int
    decreases k,
{
    if k <= 0 {
        0
    } else {
        prefix_sum(s, k - 1) + s[k - 1]
    }
}

/// `s` cut to, or extended with `fill` up to, length `n`.
pub open spec fn resized(s: Seq<u64>, n: nat, fill: u64) -> Seq<u64> {
    if n <= s.len() {
        s.subrange(0, n as int)
    } else {
        s + Seq::new((n - s.len()) as nat, |i: int| fill)
    }
}

/// A prefix sum depends on the sizes before it only.
proof fn lemma_prefix_sum_same(s: Seq<u64>, t: Seq<u64>, k: int)
    requires
        0 <= k,
        forall|i: int| 0 <= i < k ==> s[i] == t[i],
    ensures
        prefix_sum(s, k) == prefix_sum(t, k),
    decreases k,
{
    if k > 0 {
        lemma_prefix_sum_same(s, t, k - 1);
    }
}

/// The prefix sum of `k` equal sizes.
proof fn lemma_prefix_sum_uniform(s: Seq<u64>, size: u64, k: int)
    requires
        0 <= k <= s.len(),
        forall|i: int| 0 <= i < s.len() ==> s[i] == size,
    ensures
        prefix_sum(s, k) == size * k,
    decreases k,
{
    if k > 0 {
        lemma_prefix_sum_uniform(s, size, k - 1);
        assert(size * (k - 1) + size == size * k) by (nonlinear_arith);
    } else {
        assert(size * k == 0) by (nonlinear_arith)
            requires
                k == 0,
        ;
    }
}

/// Prefix sums never decrease.
proof fn lemma_prefix_sum_monotone(s: Seq<u64>, i: int, j: int)
    requires
        0 <= i <= j <= s.len(),
    ensures
        prefix_sum(s, i) <= prefix_sum(s, j),
    decreases j - i,
{
    if i < j {
        lemma_prefix_sum_monotone(s, i, j - 1);
    }
}


/// Why a resize was refused.
#[derive(Clone, Copy, Debug, PartialEq, Eq, Structural, Hash)]
pub enum MeasureError {
    /// The visual index is not below the axis length.
    IndexOutOfRange,
    /// A fixed-size axis has no per-index sizes.
    Unsupported,
}

enum Sizes {
    Fixed { size: u64, len: usize },
    Stored { default_size: u64, sizes: Vec<u64>, offsets: Vec<u64>, clean: usize },
}

/// Pixel geometry of one axis: a size for each visual index, and the
/// cumulative offsets derived from them, in whole pixels. A fixed measure
/// gives every index the same size; a stored one keeps a size per index and
/// recomputes its cached offsets lazily after an edit.
pub struct AxisMeasure {
    inner: Sizes,
}

impl AxisMeasure {
    /// The size of each visual index.
    pub closed spec fn sizes(&self) -> Seq<u64> {
        match self.inner {
            Sizes::Fixed { size, len } => Seq::new(len as nat, |i: int| size),
            Sizes::Stored { sizes, .. } => sizes@,
        }
    }

    /// The measure gives every index one size and takes no resize.
    pub closed spec fn is_fixed(&self) -> bool {
        self.inner is Fixed
    }

    /// The size given to indices added by lengthening the axis.
    pub closed spec fn default_size(&self) -> u64 {
        match self.inner {
            Sizes::Fixed { size, .. } => size,
            Sizes::Stored { default_size, .. } => default_size,
        }
    }

    /// The cached offsets hold the prefix sums up to the clean mark.
    pub closed spec fn cache_ok(&self) -> bool {
        match self.inner {
            Sizes::Fixed { .. } => true,
            Sizes::Stored { sizes, offsets, clean, .. } => {
                &&& offsets@.len() == sizes@.len() + 1
                &&& clean <= sizes@.len()
                &&& forall|i: int| 0 <= i <= clean ==> #[trigger] offsets@[i] == prefix_sum(sizes@, i)
            },
        }
    }

    /// The cache is consistent and the whole axis fits in `u64` pixels.
    pub open spec fn wf(&self) -> bool {
        &&& self.cache_ok()
        &&& self.sizes().len() <= usize::MAX
        &&& prefix_sum(self.sizes(), self.sizes().len() as int) <= u64::MAX
    }

    /// Pixel length of the whole axis.
    pub open spec fn total(&self) -> int {
        prefix_sum(self.sizes(), self.sizes().len() as int)
    }

    /// Offset of visual index `vis`, clamped to the end of the axis.
    pub open spec fn offset_of(&self, vis: VisIdx) -> int {
        if vis.0 <= self.sizes().len() {
            prefix_sum(self.sizes(), vis.0 as int)
        } else {
            self.total()
        }
    }

    /// `self` and `other` describe the same geometry.
    pub open spec fn same_measure(&self, other: AxisMeasure) -> bool {
        &&& self.sizes() == other.sizes()
        &&& self.is_fixed() == other.is_fixed()
        &&& self.default_size() == other.default_size()
    }

    /// A measure giving each of `len` indices `size` pixels.
    pub fn fixed(size: u64, len: usize) -> (r: AxisMeasure)
        requires
            size * len <= u64::MAX,
        ensures
            r.wf(),
            r.is_fixed(),
            r.default_size() == size,
            r.sizes() == Seq::new(len as nat, |i: int| size),
    {
        let r = AxisMeasure { inner: Sizes::Fixed { size, len } };
        proof {
            lemma_prefix_sum_uniform(r.sizes(), size, len as int);
        }
        r
    }

    /// A measure keeping a size per index, starting with `len` indices of
    /// `default_size` pixels.
    pub fn stored(default_size: u64, len: usize) -> (r: AxisMeasure)
        requires
            default_size * len <= u64::MAX,
        ensures
            r.wf(),
            !r.is_fixed(),
            r.default_size() == default_size,
            r.sizes() == Seq::new(len as nat, |i: int| default_size),
    {
        let mut sizes: Vec<u64> = Vec::new();
        let mut offsets: Vec<u64> = Vec::new();
        offsets.push(0);
        let mut i: usize = 0;
        while i < len
            invariant
                i <= len,
                sizes@.len() == i,
                offsets@.len() == i + 1,
                offsets@[0] == 0,
                forall|j: int| 0 <= j < i ==> #[trigger] sizes@[j] == default_size,
            decreases len - i,
        {
            sizes.push(default_size);
            offsets.push(0);
            i = i + 1;
        }
        let r = AxisMeasure { inner: Sizes::Stored { default_size, sizes, offsets, clean: 0 } };
        proof {
            assert(r.sizes() =~= Seq::new(len as nat, |i: int| default_size));
            lemma_prefix_sum_uniform(r.sizes(), default_size, len as int);
        }
        r
    }

    /// Number of visual indices on the axis.
    pub fn axis_len(&self) -> (r: usize)
        ensures
            r == self.sizes().len(),
    {
        match &self.inner {
            Sizes::Fixed { len, .. } => *len,
            Sizes::Stored { sizes, .. } => sizes.len(),
        }
    }

    /// Brings the cached offsets up to date.
    fn refresh(&mut self)
        requires
            old(self).wf(),
        ensures
            final(self).wf(),
            final(self).same_measure(*old(self)),
            match final(self).inner {
                Sizes::Fixed { .. } => true,
                Sizes::Stored { sizes, offsets, .. } => forall|i: int|
                    0 <= i <= sizes@.len() ==> #[trigger] offsets@[i] == prefix_sum(sizes@, i),
            },
    {
        match &mut self.inner {
            Sizes::Fixed { .. } => {},
            Sizes::Stored { sizes, offsets, clean, .. } => {
                let n = sizes.len();
                while *clean < n
                    invariant
                        n == sizes@.len(),
                        offsets@.len() == sizes@.len() + 1,
                        *clean <= sizes@.len(),
                        forall|i: int| 0 <= i <= *clean ==> #[trigger] offsets@[i] == prefix_sum(sizes@, i),
                        prefix_sum(sizes@, sizes@.len() as int) <= u64::MAX,
                    decreases n - *clean,
                {
                    let c = *clean;
                    proof {
                        lemma_prefix_sum_monotone(sizes@, c + 1, n as int);
                    }
                    let next = offsets[c] + sizes[c];
                    offsets.set(c + 1, next);
                    *clean = c + 1;
                }
            },
        }
    }

    /// Pixel offset of visual index `vis`: the sum of the sizes before it,
    /// or the whole axis length for an index past the end.
    pub fn pixel_offset(&mut self, vis: VisIdx) -> (r: u64)
        requires
            old(self).wf(),
        ensures
            final(self).wf(),
            final(self).same_measure(*old(self)),
            r == old(self).offset_of(vis),
    {
        self.refresh();
        match &self.inner {
            Sizes::Fixed { size, len } => {
                let k = if vis.0 <= *len { vis.0 } else { *len };
                proof {
                    lemma_prefix_sum_uniform(self.sizes(), *size, k as int);
                    lemma_prefix_sum_uniform(self.sizes(), *size, *len as int);
                    assert(*size * k <= *size * *len) by (nonlinear_arith)
                        requires k <= *len;
                }
                *size * k as u64
            },
            Sizes::Stored { sizes, offsets, .. } => {
                let k = if vis.0 <= sizes.len() { vis.0 } else { sizes.len() };
                offsets[k]
            },
        }
    }

    /// Pixel length of the whole axis.
    pub fn total_pixel_length(&mut self) -> (r: u64)
        requires
            old(self).wf(),
        ensures
            final(self).wf(),
            final(self).same_measure(*old(self)),
            r == old(self).total(),
    {
        let n = self.axis_len();
        self.pixel_offset(VisIdx(n))
    }

    /// The visual index whose span `[offset, offset + size)` holds pixel `y`;
    /// `None` when `y` lies past the end of the axis.
    pub fn vis_at_pixel(&mut self, y: u64) -> (r: Option<VisIdx>)
        requires
            old(self).wf(),
        ensures
            final(self).wf(),
            final(self).same_measure(*old(self)),
            match r {
                Some(v) => v.0 < old(self).sizes().len() && prefix_sum(old(self).sizes(), v.0 as int)
                    <= y < prefix_sum(old(self).sizes(), v.0 + 1),
                None => y >= old(self).total(),
            },
    {
        self.refresh();
        match &self.inner {
            Sizes::Fixed { size, len } => {
                if *size == 0 {
                    proof {
                        lemma_prefix_sum_uniform(self.sizes(), *size, *len as int);
                    }
                    return None;
                }
                let v = y / *size;
                proof {
                    lemma_prefix_sum_uniform(self.sizes(), *size, *len as int);
                    assert(*size * v <= y < *size * (v + 1)) by (nonlinear_arith)
                        requires v == y / *size, *size > 0;
                }
                if v < *len as u64 {
                    proof {
                        lemma_prefix_sum_uniform(self.sizes(), *size, v as int);
                        lemma_prefix_sum_uniform(self.sizes(), *size, v + 1);
                    }
                    Some(VisIdx(v as usize))
                } else {
                    proof {
                        assert(*size * *len <= *size * v) by (nonlinear_arith)
                            requires *len <= v;
                    }
                    None
                }
            },
            Sizes::Stored { sizes, offsets, .. } => {
                let n = sizes.len();
                if y >= offsets[n] {
                    return None;
                }
                let mut lo: usize = 0;
                let mut hi: usize = n;
                while hi - lo > 1
                    invariant
                        lo < hi <= n,
                        n == sizes@.len(),
                        offsets@.len() == n + 1,
                        forall|i: int| 0 <= i <= n ==> #[trigger] offsets@[i] == prefix_sum(sizes@, i),
                        offsets@[lo as int] <= y < offsets@[hi as int],
                    decreases hi - lo,
                {
                    let mid = lo + (hi - lo) / 2;
                    if offsets[mid] <= y {
                        lo = mid;
                    } else {
                        hi = mid;
                    }
                }
                Some(VisIdx(lo))
            },
        }
    }

    /// Lengthens the axis with indices of the default size, or shortens it.
    pub fn set_axis_length(&mut self, n: usize)
        requires
            old(self).wf(),
            prefix_sum(resized(old(self).sizes(), n as nat, old(self).default_size()), n as int)
                <= u64::MAX,
        ensures
            final(self).wf(),
            final(self).is_fixed() == old(self).is_fixed(),
            final(self).default_size() == old(self).default_size(),
            final(self).sizes() == resized(old(self).sizes(), n as nat, old(self).default_size()),
    {
        let ghost before = self.sizes();
        let ghost fill = self.default_size();
        match &mut self.inner {
            Sizes::Fixed { size, len } => {
                *len = n;
                proof {
                    assert(self.sizes() =~= resized(before, n as nat, fill));
                }
            },
            Sizes::Stored { default_size, sizes, offsets, clean } => {
                if n <= sizes.len() {
                    let cached = offsets.len();
                    assert(n + 1 <= cached);
                    sizes.truncate(n);
                    offsets.truncate(n + 1);
                    if *clean > n {
                        *clean = n;
                    }
                    proof {
                        assert forall|i: int| 0 <= i <= *clean implies #[trigger] offsets@[i]
                            == prefix_sum(sizes@, i) by {
                            lemma_prefix_sum_same(before, sizes@, i);
                        }
                    }
                } else {
                    let start = sizes.len();
                    while sizes.len() < n
                        invariant
                            start <= sizes@.len() <= n,
                            offsets@.len() == sizes@.len() + 1,
                            *clean <= start,
                            before.len() == start,
                            *default_size == fill,
                            sizes@ =~= before + Seq::new((sizes@.len() - start) as nat, |i: int| fill),
                            forall|i: int| 0 <= i <= *clean ==> #[trigger] offsets@[i] == prefix_sum(before, i),
                        decreases n - sizes@.len(),
                    {
                        sizes.push(*default_size);
                        offsets.push(0);
                    }
                    proof {
                        assert forall|i: int| 0 <= i <= *clean implies #[trigger] offsets@[i]
                            == prefix_sum(sizes@, i) by {
                            lemma_prefix_sum_same(before, sizes@, i);
                        }
                    }
                }
                proof {
                    assert(self.sizes() =~= resized(before, n as nat, fill));
                }
            },
        }
    }

    /// Sets the size of visual index `vis`. A fixed measure refuses with
    /// `Unsupported`; an index past the end with `IndexOutOfRange`.
    pub fn set_size(&mut self, vis: VisIdx, size: u64) -> (r: Result<(), MeasureError>)
        requires
            old(self).wf(),
            !old(self).is_fixed() && vis.0 < old(self).sizes().len() ==> prefix_sum(
                old(self).sizes().update(vis.0 as int, size),
                old(self).sizes().len() as int,
            ) <= u64::MAX,
        ensures
            final(self).wf(),
            final(self).is_fixed() == old(self).is_fixed(),
            final(self).default_size() == old(self).default_size(),
            old(self).is_fixed() ==> r == Err::<(), MeasureError>(MeasureError::Unsupported),
            !old(self).is_fixed() && vis.0 >= old(self).sizes().len() ==> r == Err::<(), MeasureError>(
                MeasureError::IndexOutOfRange,
            ),
            r.is_ok() <==> !old(self).is_fixed() && vis.0 < old(self).sizes().len(),
            r.is_ok() ==> final(self).sizes() == old(self).sizes().update(vis.0 as int, size),
            r.is_err() ==> final(self).sizes() == old(self).sizes(),
    {
        let ghost before = self.sizes();
        match &mut self.inner {
            Sizes::Fixed { .. } => Err(MeasureError::Unsupported),
            Sizes::Stored { sizes, offsets, clean, .. } => {
                if vis.0 >= sizes.len() {
                    return Err(MeasureError::IndexOutOfRange);
                }
                sizes.set(vis.0, size);
                if *clean > vis.0 {
                    *clean = vis.0;
                }
                proof {
                    assert forall|i: int| 0 <= i <= *clean implies #[trigger] offsets@[i]
                        == prefix_sum(sizes@, i) by {
                        lemma_prefix_sum_same(before, sizes@, i);
                    }
                }
                Ok(())
            },
        }
    }
}


/// The offset past the last index is the sum of all sizes, and offsets never
/// decrease with the visual index.
pub proof fn lemma_offsets_monotone(m: AxisMeasure, i: VisIdx, j: VisIdx)
    requires
        m.wf(),
        i.0 <= j.0,
    ensures
        m.offset_of(VisIdx(m.sizes().len() as usize)) == prefix_sum(m.sizes(), m.sizes().len() as int),
        m.offset_of(i) <= m.offset_of(j),
{
    let n = m.sizes().len() as int;
    if j.0 <= n {
        lemma_prefix_sum_monotone(m.sizes(), i.0 as int, j.0 as int);
    } else if i.0 <= n {
        lemma_prefix_sum_monotone(m.sizes(), i.0 as int, n);
    }
}

/// Looking up the pixel at which visual index `v` starts finds `v` again when
/// its size is not zero: the pixel lies within the axis, and `v` is the only
/// index whose span holds it, so `vis_at_pixel` can return nothing else.
pub proof fn lemma_pixel_lookup_inverts_offset(m: AxisMeasure, v: VisIdx)
    requires
        m.wf(),
        v.0 < m.sizes().len(),
        m.sizes()[v.0 as int] > 0,
    ensures
        m.offset_of(v) < m.total(),
        forall|w: int|
            0 <= w < m.sizes().len() ==> (prefix_sum(m.sizes(), w) <= m.offset_of(v)
                < #[trigger] prefix_sum(m.sizes(), w + 1) <==> w == v.0),
{
    let s = m.sizes();
    let k = v.0 as int;
    lemma_prefix_sum_monotone(s, k + 1, s.len() as int);
    assert forall|w: int|
        0 <= w < s.len() implies (prefix_sum(s, w) <= prefix_sum(s, k) < #[trigger] prefix_sum(
        s,
        w + 1,
    ) <==> w == k) by {
        if w < k {
            lemma_prefix_sum_monotone(s, w + 1, k);
        } else if w > k {
            lemma_prefix_sum_monotone(s, k + 1, w);
        }
    }
}

} // verus!
