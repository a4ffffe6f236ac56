use vstd::prelude::*;
use crate::axis_measure::{LogIdx, VisIdx};

verus! {

/// Direction of a sort on one key column.
#[derive(Clone, Copy, Debug, PartialEq, Eq, Structural, Hash)]
pub enum SortDirection {
    Ascending,
    Descending,
}

/// A sort request: the key column, and the direction.
#[derive(Clone, Copy, Debug, PartialEq, Eq, Structural, Hash)]
pub struct SortSpec {
    pub column: usize,
    pub direction: SortDirection,
}

/// Declarative description of the transform wanted on one axis: an optional
/// sort and an optional set of logical indices to retain (all others are
/// filtered out).
#[derive(Clone, Debug)]
pub struct RemapSpec {
    pub sort: Option<SortSpec>,
    pub retain: Option<Vec<usize>>,
}

/// Why a `RemapSpec` could not be realized.
#[derive(Clone, Copy, Debug, PartialEq, Eq, Structural, Hash)]
pub enum RemapError {
    /// The sort names a key column that does not exist or is shorter than the
    /// dataset, or the filter names a logical index outside the dataset.
    InvalidSpec,
}

impl RemapSpec {
    /// The spec that asks for no transform at all.
    pub fn identity() -> (r: RemapSpec)
        ensures
            r.sort.is_none(),
            r.retain.is_none(),
    {
        RemapSpec { sort: None, retain: None }
    }

    /// True when the spec neither sorts nor filters.
    pub open spec fn is_identity(&self) -> bool {
        self.sort.is_none() && self.retain.is_none()
    }

    /// The spec can be realized over `n` logical rows with the given key
    /// columns.
    pub open spec fn valid_for(&self, n: nat, columns: Seq<Vec<i64>>) -> bool {
        &&& match self.sort {
            None => true,
            Some(s) => s.column < columns.len() && columns[s.column as int]@.len() >= n,
        }
        &&& self.filter_in_range(n)
    }

    /// Every logical index that the filter names is below `n`.
    pub open spec fn filter_in_range(&self, n: nat) -> bool {
        match self.retain {
            None => true,
            Some(set) => forall|k: int| 0 <= k < set@.len() ==> set@[k] < n,
        }
    }

    /// Logical row `r` passes the filter.
    pub open spec fn retains(&self, r: int) -> bool {
        match self.retain {
            None => true,
            Some(set) => set@.contains(r as usize),
        }
    }

    /// Logical row `a` comes strictly before logical row `b` on screen: by
    /// key in the sort's direction, ties broken by logical order.
    pub open spec fn before(&self, columns: Seq<Vec<i64>>, a: int, b: int) -> bool {
        match self.sort {
            None => a < b,
            Some(s) => {
                let key = columns[s.column as int]@;
                match s.direction {
                    SortDirection::Ascending => key[a] < key[b] || (key[a] == key[b] && a < b),
                    SortDirection::Descending => key[a] > key[b] || (key[a] == key[b] && a < b),
                }
            },
        }
    }
}

/// Number of logical rows below `k` that fail the filter of `spec`.
pub open spec fn count_filtered_out(spec: RemapSpec, k: int) -> nat
    decreases k,
{
    if k <= 0 {
        0
    } else {
        count_filtered_out(spec, k - 1) + if spec.retains(k - 1) { 0nat } else { 1nat }
    }
}

enum Mapping {
    Identity,
    Selected { forward: Vec<usize>, reverse: Vec<Option<usize>> },
}

/// The realized mapping of one axis, from visual to logical index, with the
/// reverse lookup built alongside.
pub struct Remap {
    source_len: usize,
    mapping: Mapping,
}

impl Remap {
    /// Number of logical rows the mapping was built over.
    pub closed spec fn source_len(&self) -> nat {
        self.source_len as nat
    }

    /// The logical index shown at each visual position.
    pub closed spec fn order(&self) -> Seq<usize> {
        match self.mapping {
            Mapping::Identity => Seq::new(self.source_len as nat, |i: int| i as usize),
            Mapping::Selected { forward, .. } => forward@,
        }
    }

    /// The reverse lookup table agrees with the forward mapping.
    pub closed spec fn reverse_ok(&self) -> bool {
        match self.mapping {
            Mapping::Identity => true,
            Mapping::Selected { forward, reverse } => {
                &&& reverse@.len() == self.source_len
                &&& forall|v: int|
                    0 <= v < forward@.len() ==> #[trigger] reverse@[forward@[v] as int] == Some(
                        v as usize,
                    )
                &&& forall|l: int|
                    0 <= l < reverse@.len() && #[trigger] reverse@[l].is_some() ==> {
                        let v = reverse@[l].unwrap() as int;
                        0 <= v < forward@.len() && forward@[v] == l
                    }
            },
        }
    }

    /// The mapping is injective, maps into `[0, source_len)`, and its reverse
    /// lookup agrees with it.
    pub open spec fn wf(&self) -> bool {
        &&& self.order().no_duplicates()
        &&& forall|v: int| 0 <= v < self.order().len() ==> #[trigger] self.order()[v] < self.source_len()
        &&& self.reverse_ok()
        &&& self.order().len() <= usize::MAX
    }

    /// Number of visible positions.
    pub open spec fn visible_len(&self) -> nat {
        self.order().len()
    }

    /// The mapping shows all `n` rows, each at its own logical position.
    pub open spec fn is_identity_of(&self, n: nat) -> bool {
        &&& self.visible_len() == n
        &&& forall|v: int| 0 <= v < n ==> #[trigger] self.order()[v] == v
    }

    /// Logical index at visual position `vis`, if any.
    pub open spec fn log_idx_of(&self, vis: VisIdx) -> Option<LogIdx> {
        if vis.0 < self.order().len() {
            Some(LogIdx(self.order()[vis.0 as int]))
        } else {
            None
        }
    }

    /// Visual position at which logical index `log` is shown, if any.
    pub open spec fn vis_idx_of(&self, log: LogIdx) -> Option<VisIdx> {
        if self.order().contains(log.0) {
            Some(VisIdx(choose|v: usize| v < self.order().len() && self.order()[v as int] == log.0))
        } else {
            None
        }
    }

    /// `r` is what `build` yields for `spec` over `n` rows and `columns`:
    /// exactly the retained rows, strictly in the order that `spec` asks for.
    pub open spec fn built_from(self, spec: RemapSpec, n: nat, columns: Seq<Vec<i64>>) -> bool {
        &&& self.wf()
        &&& self.source_len() == n
        &&& forall|l: int| 0 <= l < n ==> (spec.retains(l) <==> self.order().contains(l as usize))
        &&& forall|i: int, j: int|
            0 <= i < j < self.order().len() ==> spec.before(
                columns,
                #[trigger] self.order()[i] as int,
                #[trigger] self.order()[j] as int,
            )
        &&& self.visible_len() + count_filtered_out(spec, n as int) == n
    }

    /// The mapping that shows all `n` rows in logical order.
    pub fn identity(n: usize) -> (r: Remap)
        ensures
            r.wf(),
            r.source_len() == n,
            r.is_identity_of(n as nat),
    {
        Remap { source_len: n, mapping: Mapping::Identity }
    }

    /// Number of visible positions.
    pub fn visible_count(&self) -> (r: usize)
        ensures
            r == self.visible_len(),
    {
        match &self.mapping {
            Mapping::Identity => self.source_len,
            Mapping::Selected { forward, .. } => forward.len(),
        }
    }

    /// True when the mapping shows every row at its own logical position.
    pub fn is_identity(&self) -> (r: bool)
        ensures
            r == self.is_identity_of(self.source_len()),
    {
        match &self.mapping {
            Mapping::Identity => true,
            Mapping::Selected { forward, .. } => {
                if forward.len() != self.source_len {
                    return false;
                }
                let mut v: usize = 0;
                while v < forward.len()
                    invariant
                        v <= forward@.len(),
                        forward@ == self.order(),
                        forall|w: int| 0 <= w < v ==> #[trigger] forward@[w] == w,
                    decreases forward@.len() - v,
                {
                    if forward[v] != v {
                        return false;
                    }
                    v = v + 1;
                }
                true
            },
        }
    }

    /// Logical index shown at visual position `vis`; `None` past the end.
    pub fn get_log_idx(&self, vis: VisIdx) -> (r: Option<LogIdx>)
        requires
            self.wf(),
        ensures
            r == self.log_idx_of(vis),
    {
        match &self.mapping {
            Mapping::Identity => {
                if vis.0 < self.source_len {
                    Some(LogIdx(vis.0))
                } else {
                    None
                }
            },
            Mapping::Selected { forward, .. } => {
                if vis.0 < forward.len() {
                    Some(LogIdx(forward[vis.0]))
                } else {
                    None
                }
            },
        }
    }

    /// Visual position of logical index `log`; `None` when it is filtered out
    /// or outside the dataset.
    pub fn get_vis_idx(&self, log: LogIdx) -> (r: Option<VisIdx>)
        requires
            self.wf(),
        ensures
            r == self.vis_idx_of(log),
            match r {
                Some(v) => v.0 < self.order().len() && self.order()[v.0 as int] == log.0,
                None => !self.order().contains(log.0),
            },
    {
        let r = self.find_vis_idx(log);
        proof {
            if let Some(v) = r {
                lemma_vis_idx_unique(*self, v.0 as int);
            }
        }
        r
    }

    fn find_vis_idx(&self, log: LogIdx) -> (r: Option<VisIdx>)
        requires
            self.wf(),
        ensures
            match r {
                Some(v) => v.0 < self.order().len() && self.order()[v.0 as int] == log.0,
                None => !self.order().contains(log.0),
            },
    {
        match &self.mapping {
            Mapping::Identity => {
                if log.0 < self.source_len {
                    Some(VisIdx(log.0))
                } else {
                    proof {
                        if self.order().contains(log.0) {
                            let v = choose|v: int| 0 <= v < self.order().len() && self.order()[v] == log.0;
                        }
                    }
                    None
                }
            },
            Mapping::Selected { forward, reverse } => {
                if log.0 < reverse.len() {
                    match reverse[log.0] {
                        Some(v) => Some(VisIdx(v)),
                        None => {
                            proof {
                                if self.order().contains(log.0) {
                                    let v = choose|v: int|
                                        0 <= v < self.order().len() && self.order()[v] == log.0;
                                    assert(reverse@[forward@[v] as int] == Some(v as usize));
                                }
                            }
                            None
                        },
                    }
                } else {
                    proof {
                        if self.order().contains(log.0) {
                            let v = choose|v: int| 0 <= v < self.order().len() && self.order()[v] == log.0;
                            assert(self.order()[v] < self.source_len());
                        }
                    }
                    None
                }
            },
        }
    }
}


/// `before` is a strict total order on distinct logical rows below `n`.
proof fn lemma_before_order(spec: RemapSpec, columns: Seq<Vec<i64>>, n: nat)
    requires
        spec.valid_for(n, columns),
    ensures
        forall|a: int| !#[trigger] spec.before(columns, a, a),
        forall|a: int, b: int|
            0 <= a < n && 0 <= b < n && a != b ==> #[trigger] spec.before(columns, a, b) || spec.before(
                columns,
                b,
                a,
            ),
        forall|a: int, b: int|
            #[trigger] spec.before(columns, a, b) ==> !spec.before(columns, b, a),
        forall|a: int, b: int, c: int|
            #[trigger] spec.before(columns, a, b) && #[trigger] spec.before(columns, b, c)
                ==> spec.before(columns, a, c),
{
}

/// Checks that `spec` can be realized over `n` rows.
fn spec_is_valid(spec: &RemapSpec, n: usize, columns: &Vec<Vec<i64>>) -> (r: bool)
    ensures
        r == spec.valid_for(n as nat, columns@),
{
    match spec.sort {
        Some(s) => {
            if s.column >= columns.len() || columns[s.column].len() < n {
                return false;
            }
        },
        None => {},
    }
    match &spec.retain {
        Some(set) => {
            let mut k: usize = 0;
            while k < set.len()
                invariant
                    k <= set@.len(),
                    spec.retain == Some(*set),
                    match spec.sort {
                        None => true,
                        Some(s) => s.column < columns@.len() && columns@[s.column as int]@.len() >= n,
                    },
                    forall|j: int| 0 <= j < k ==> set@[j] < n,
                decreases set@.len() - k,
            {
                if set[k] >= n {
                    assert(!spec.filter_in_range(n as nat)) by {
                        assert(spec.retain.unwrap()@[k as int] >= n);
                    }
                    return false;
                }
                k = k + 1;
            }
            true
        },
        None => true,
    }
}

/// The rows below `n` that pass the filter, in logical order.
fn retained_rows(spec: &RemapSpec, n: usize) -> (r: Vec<usize>)
    requires
        spec.filter_in_range(n as nat),
    ensures
        forall|i: int, j: int| 0 <= i < j < r@.len() ==> r@[i] < r@[j],
        forall|i: int| 0 <= i < r@.len() ==> #[trigger] r@[i] < n,
        forall|l: int| 0 <= l < n ==> (spec.retains(l) <==> r@.contains(l as usize)),
        r@.len() + count_filtered_out(*spec, n as int) == n,
{
    let mut mask: Vec<bool> = Vec::new();
    let mut i: usize = 0;
    let all = spec.retain.is_none();
    while i < n
        invariant
            i <= n,
            mask@.len() == i,
            forall|j: int| 0 <= j < i ==> #[trigger] mask@[j] == all,
        decreases n - i,
    {
        mask.push(all);
        i = i + 1;
    }
    match &spec.retain {
        Some(set) => {
            let mut k: usize = 0;
            while k < set.len()
                invariant
                    k <= set@.len(),
                    mask@.len() == n,
                    spec.retain == Some(*set),
                    forall|j: int| 0 <= j < set@.len() ==> set@[j] < n,
                    forall|l: int|
                        0 <= l < n ==> (#[trigger] mask@[l] <==> set@.subrange(0, k as int).contains(
                            l as usize,
                        )),
                decreases set@.len() - k,
            {
                mask.set(set[k], true);
                proof {
                    assert forall|l: int| 0 <= l < n implies (#[trigger] mask@[l]
                        <==> set@.subrange(0, k + 1).contains(l as usize)) by {
                        if set@.subrange(0, k as int).contains(l as usize) {
                            let w = choose|w: int|
                                0 <= w < k && set@.subrange(0, k as int)[w] == l as usize;
                            assert(set@.subrange(0, k + 1)[w] == l as usize);
                        }
                        if set@.subrange(0, k + 1).contains(l as usize) {
                            let w = choose|w: int|
                                0 <= w < k + 1 && #[trigger] set@.subrange(0, k + 1)[w] == l as usize;
                            if w < k {
                                assert(set@.subrange(0, k as int)[w] == l as usize);
                            }
                        }
                        if l == set@[k as int] {
                            assert(set@.subrange(0, k + 1)[k as int] == l as usize);
                        }
                    }
                }
                k = k + 1;
            }
            assert(set@.subrange(0, set@.len() as int) == set@);
        },
        None => {},
    }
    let mut rows: Vec<usize> = Vec::new();
    let mut r: usize = 0;
    while r < n
        invariant
            r <= n,
            mask@.len() == n,
            forall|l: int| 0 <= l < n ==> (#[trigger] mask@[l] <==> spec.retains(l)),
            forall|i: int, j: int| 0 <= i < j < rows@.len() ==> rows@[i] < rows@[j],
            forall|i: int| 0 <= i < rows@.len() ==> #[trigger] rows@[i] < r,
            forall|l: int| 0 <= l < r ==> (spec.retains(l) <==> rows@.contains(l as usize)),
            rows@.len() + count_filtered_out(*spec, r as int) == r,
        decreases n - r,
    {
        let ghost old_rows = rows@;
        if mask[r] {
            rows.push(r);
            proof {
                assert(rows@[old_rows.len() as int] == r);
                assert forall|l: int| 0 <= l < r implies (spec.retains(l) <==> rows@.contains(
                    l as usize,
                )) by {
                    if old_rows.contains(l as usize) {
                        let w = choose|w: int| 0 <= w < old_rows.len() && old_rows[w] == l as usize;
                        assert(rows@[w] == l as usize);
                    }
                    if rows@.contains(l as usize) {
                        let w = choose|w: int| 0 <= w < rows@.len() && rows@[w] == l as usize;
                        assert(old_rows[w] == l as usize);
                    }
                }
            }
        } else {
            proof {
                if rows@.contains(r as usize) {
                    let w = choose|w: int| 0 <= w < rows@.len() && rows@[w] == r as usize;
                }
            }
        }
        r = r + 1;
    }
    rows
}

/// `before` on two rows, as `spec` and `columns` define it.
fn comes_before(spec: &RemapSpec, columns: &Vec<Vec<i64>>, n: usize, a: usize, b: usize) -> (r:
    bool)
    requires
        spec.valid_for(n as nat, columns@),
        a < n,
        b < n,
    ensures
        r == spec.before(columns@, a as int, b as int),
{
    match spec.sort {
        None => a < b,
        Some(s) => {
            let ka = columns[s.column][a];
            let kb = columns[s.column][b];
            match s.direction {
                SortDirection::Ascending => ka < kb || (ka == kb && a < b),
                SortDirection::Descending => ka > kb || (ka == kb && a < b),
            }
        },
    }
}

/// Stable insertion sort of `rows` by `before`.
fn sort_rows(spec: &RemapSpec, columns: &Vec<Vec<i64>>, n: usize, rows: &Vec<usize>) -> (r: Vec<
    usize,
>)
    requires
        spec.valid_for(n as nat, columns@),
        forall|i: int| 0 <= i < rows@.len() ==> #[trigger] rows@[i] < n,
        rows@.no_duplicates(),
    ensures
        r@.len() == rows@.len(),
        forall|i: int, j: int|
            0 <= i < j < r@.len() ==> spec.before(columns@, #[trigger] r@[i] as int, #[trigger] r@[j] as int),
        forall|x: usize| r@.contains(x) <==> rows@.contains(x),
{
    proof {
        lemma_before_order(*spec, columns@, n as nat);
    }
    let mut out: Vec<usize> = Vec::new();
    let mut idx: usize = 0;
    while idx < rows.len()
        invariant
            idx <= rows@.len(),
            out@.len() == idx,
            spec.valid_for(n as nat, columns@),
            forall|i: int| 0 <= i < rows@.len() ==> #[trigger] rows@[i] < n,
            forall|i: int| 0 <= i < out@.len() ==> #[trigger] out@[i] < n,
            forall|i: int, j: int|
                0 <= i < j < out@.len() ==> spec.before(
                    columns@,
                    #[trigger] out@[i] as int,
                    #[trigger] out@[j] as int,
                ),
            forall|k: int| 0 <= k < idx ==> out@.contains(#[trigger] rows@[k]),
            forall|i: int|
                #![trigger out@[i]]
                0 <= i < out@.len() ==> exists|k: int| 0 <= k < idx && rows@[k] == out@[i],
            rows@.no_duplicates(),
        decreases rows@.len() - idx,
    {
        let x = rows[idx];
        let mut p: usize = 0;
        while p < out.len() && comes_before(spec, columns, n, out[p], x)
            invariant
                p <= out@.len(),
                x < n,
                spec.valid_for(n as nat, columns@),
                forall|i: int| 0 <= i < out@.len() ==> #[trigger] out@[i] < n,
                forall|k: int| 0 <= k < p ==> spec.before(columns@, #[trigger] out@[k] as int, x as int),
            decreases out@.len() - p,
        {
            p = p + 1;
        }
        let ghost old_out = out@;
        proof {
            old_out.insert_ensures(p as int, x);
            if p < old_out.len() {
                let w = choose|w: int| 0 <= w < idx && rows@[w] == old_out[p as int];
                assert(old_out[p as int] != x);
                assert forall|k: int| p <= k < old_out.len() implies spec.before(
                    columns@,
                    x as int,
                    #[trigger] old_out[k] as int,
                ) by {
                    if k > p {
                        assert(spec.before(columns@, old_out[p as int] as int, old_out[k] as int));
                    }
                }
            }
        }
        out.insert(p, x);
        proof {
            assert forall|i: int, j: int| 0 <= i < j < out@.len() implies spec.before(
                columns@,
                #[trigger] out@[i] as int,
                #[trigger] out@[j] as int,
            ) by {
                if j < p {
                } else if j == p {
                } else if i < p {
                    assert(out@[j] == old_out[j - 1]);
                    assert(spec.before(columns@, old_out[i] as int, x as int));
                } else if i == p {
                    assert(out@[j] == old_out[j - 1]);
                } else {
                    assert(out@[i] == old_out[i - 1]);
                    assert(out@[j] == old_out[j - 1]);
                }
            }
            assert forall|k: int| 0 <= k < idx + 1 implies out@.contains(#[trigger] rows@[k]) by {
                if k == idx {
                    assert(out@[p as int] == x);
                } else {
                    let w = choose|w: int| 0 <= w < old_out.len() && old_out[w] == rows@[k];
                    if w < p {
                        assert(out@[w] == rows@[k]);
                    } else {
                        assert(out@[w + 1] == rows@[k]);
                    }
                }
            }
            assert forall|i: int| 0 <= i < out@.len() implies exists|k: int|
                0 <= k < idx + 1 && rows@[k] == #[trigger] out@[i] by {
                if i < p {
                    assert(out@[i] == old_out[i]);
                    let w = choose|w: int| 0 <= w < idx && rows@[w] == old_out[i];
                } else if i == p {
                    assert(rows@[idx as int] == x);
                } else {
                    assert(out@[i] == old_out[i - 1]);
                    let w = choose|w: int| 0 <= w < idx && rows@[w] == old_out[i - 1];
                }
            }
            assert forall|i: int| 0 <= i < out@.len() implies #[trigger] out@[i] < n by {
                if i < p {
                    assert(out@[i] == old_out[i]);
                } else if i > p {
                    assert(out@[i] == old_out[i - 1]);
                }
            }
        }
        idx = idx + 1;
    }
    proof {
        assert forall|x: usize| out@.contains(x) implies rows@.contains(x) by {
            let w = choose|w: int| 0 <= w < out@.len() && out@[w] == x;
            let k = choose|k: int| 0 <= k < idx && rows@[k] == out@[w];
        }
        assert forall|x: usize| rows@.contains(x) implies out@.contains(x) by {
            let w = choose|w: int| 0 <= w < rows@.len() && rows@[w] == x;
        }
    }
    out
}


/// Reverse lookup for `forward` over `n` logical rows.
fn reverse_index(forward: &Vec<usize>, n: usize) -> (r: Vec<Option<usize>>)
    requires
        forward@.no_duplicates(),
        forall|v: int| 0 <= v < forward@.len() ==> #[trigger] forward@[v] < n,
    ensures
        r@.len() == n,
        forward@.len() <= usize::MAX,
        forall|v: int|
            0 <= v < forward@.len() ==> #[trigger] r@[forward@[v] as int] == Some(v as usize),
        forall|l: int|
            0 <= l < r@.len() && #[trigger] r@[l].is_some() ==> {
                let v = r@[l].unwrap() as int;
                0 <= v < forward@.len() && forward@[v] == l
            },
{
    let mut rev: Vec<Option<usize>> = Vec::new();
    let mut i: usize = 0;
    while i < n
        invariant
            i <= n,
            rev@.len() == i,
            forall|j: int| 0 <= j < i ==> (#[trigger] rev@[j]).is_none(),
        decreases n - i,
    {
        rev.push(None);
        i = i + 1;
    }
    let mut v: usize = 0;
    while v < forward.len()
        invariant
            v <= forward@.len(),
            rev@.len() == n,
            forward@.no_duplicates(),
            forall|w: int| 0 <= w < forward@.len() ==> #[trigger] forward@[w] < n,
            forall|w: int| 0 <= w < v ==> #[trigger] rev@[forward@[w] as int] == Some(w as usize),
            forall|l: int|
                0 <= l < rev@.len() && #[trigger] rev@[l].is_some() ==> {
                    let w = rev@[l].unwrap() as int;
                    0 <= w < v && forward@[w] == l
                },
        decreases forward@.len() - v,
    {
        rev.set(forward[v], Some(v));
        proof {
            assert forall|w: int| 0 <= w < v + 1 implies #[trigger] rev@[forward@[w] as int] == Some(
                w as usize,
            ) by {
                if w < v {
                    assert(forward@[w] != forward@[v as int]);
                }
            }
        }
        v = v + 1;
    }
    rev
}

impl Remap {
    /// Realizes `spec` over `source_len` logical rows, whose sort keys are
    /// `columns[c][row]` for key column `c`. The rows that pass the filter are
    /// kept, then stably sorted by the key column in the requested direction.
    pub fn build(spec: &RemapSpec, source_len: usize, columns: &Vec<Vec<i64>>) -> (r: Result<
        Remap,
        RemapError,
    >)
        ensures
            r.is_ok() <==> spec.valid_for(source_len as nat, columns@),
            r matches Err(e) ==> e == RemapError::InvalidSpec,
            r matches Ok(m) ==> m.built_from(*spec, source_len as nat, columns@),
            r matches Ok(m) ==> spec.is_identity() ==> m.is_identity_of(source_len as nat),
    {
        if !spec_is_valid(spec, source_len, columns) {
            return Err(RemapError::InvalidSpec);
        }
        if spec.sort.is_none() && spec.retain.is_none() {
            let m = Remap::identity(source_len);
            proof {
                lemma_identity_built(*spec, source_len as nat, columns@, m);
            }
            return Ok(m);
        }
        let rows = retained_rows(spec, source_len);
        proof {
            assert forall|i: int, j: int| 0 <= i < rows@.len() && 0 <= j < rows@.len() && i != j
                implies rows@[i] != rows@[j] by {
                if i < j {
                    assert(rows@[i] < rows@[j]);
                } else {
                    assert(rows@[j] < rows@[i]);
                }
            }
        }
        let forward = sort_rows(spec, columns, source_len, &rows);
        proof {
            lemma_before_order(*spec, columns@, source_len as nat);
            assert forall|i: int, j: int|
                0 <= i < forward@.len() && 0 <= j < forward@.len() && i != j implies forward@[i]
                != forward@[j] by {
                if i < j {
                    assert(spec.before(columns@, forward@[i] as int, forward@[j] as int));
                } else {
                    assert(spec.before(columns@, forward@[j] as int, forward@[i] as int));
                }
            }
            assert forall|v: int| 0 <= v < forward@.len() implies #[trigger] forward@[v]
                < source_len by {
                assert(forward@.contains(forward@[v]));
                let w = choose|w: int| 0 <= w < rows@.len() && rows@[w] == forward@[v];
            }
        }
        let reverse = reverse_index(&forward, source_len);
        let m = Remap { source_len, mapping: Mapping::Selected { forward, reverse } };
        Ok(m)
    }
}

/// The identity mapping is what an identity spec builds.
proof fn lemma_identity_built(spec: RemapSpec, n: nat, columns: Seq<Vec<i64>>, m: Remap)
    requires
        spec.is_identity(),
        m.wf(),
        m.source_len() == n,
        m.is_identity_of(n),
    ensures
        m.built_from(spec, n, columns),
{
    assert forall|l: int| 0 <= l < n implies (spec.retains(l) <==> m.order().contains(
        l as usize,
    )) by {
        assert(m.order()[l] == l as usize);
    }
    lemma_nothing_filtered(spec, n as int);
}

proof fn lemma_nothing_filtered(spec: RemapSpec, k: int)
    requires
        spec.retain.is_none(),
    ensures
        count_filtered_out(spec, k) == 0,
    decreases k,
{
    if k > 0 {
        lemma_nothing_filtered(spec, k - 1);
    }
}


/// In a well-formed mapping each shown logical index has one visual position.
proof fn lemma_vis_idx_unique(m: Remap, v: int)
    requires
        m.wf(),
        0 <= v < m.order().len(),
    ensures
        m.vis_idx_of(LogIdx(m.order()[v])) == Some(VisIdx(v as usize)),
{
    let l = m.order()[v];
    assert(m.order()[v as usize as int] == l);
    assert(m.order().contains(l));
    let w = choose|w: usize| w < m.order().len() && m.order()[w as int] == l;
    assert(w == v);
}

/// A built mapping is injective on its visible positions, and looking a
/// shown logical index back up gives the position it is shown at.
pub proof fn lemma_build_is_bijective(spec: RemapSpec, n: nat, columns: Seq<Vec<i64>>, m: Remap)
    requires
        m.built_from(spec, n, columns),
    ensures
        forall|v1: usize, v2: usize|
            v1 < m.visible_len() && v2 < m.visible_len() && #[trigger] m.log_idx_of(VisIdx(v1))
                == #[trigger] m.log_idx_of(VisIdx(v2)) ==> v1 == v2,
        forall|v: usize|
            v < m.visible_len() ==> m.vis_idx_of(#[trigger] m.log_idx_of(VisIdx(v)).unwrap())
                == Some(VisIdx(v)),
{
    assert forall|v: usize| v < m.visible_len() implies m.vis_idx_of(
        #[trigger] m.log_idx_of(VisIdx(v)).unwrap(),
    ) == Some(VisIdx(v)) by {
        lemma_vis_idx_unique(m, v as int);
    }
}

proof fn lemma_orders_agree_upto(
    spec: RemapSpec,
    n: nat,
    columns: Seq<Vec<i64>>,
    m1: Remap,
    m2: Remap,
    i: int,
)
    requires
        m1.built_from(spec, n, columns),
        m2.built_from(spec, n, columns),
        spec.valid_for(n, columns),
        0 <= i <= m1.order().len(),
        m1.order().len() == m2.order().len(),
    ensures
        forall|k: int| 0 <= k < i ==> m1.order()[k] == m2.order()[k],
    decreases i,
{
    if i > 0 {
        lemma_orders_agree_upto(spec, n, columns, m1, m2, i - 1);
        lemma_before_order(spec, columns, n);
        let k = i - 1;
        let a = m1.order()[k];
        let b = m2.order()[k];
        if a != b {
            assert(m1.order().contains(a));
            assert(m2.order().contains(a) == spec.retains(a as int));
            assert(m2.order().contains(a));
            let j = choose|j: int| 0 <= j < m2.order().len() && m2.order()[j] == a;
            assert(m2.order().contains(b));
            assert(b < n);
            assert(spec.retains(b as int));
            assert(m1.order().contains(b));
            let j1 = choose|j1: int| 0 <= j1 < m1.order().len() && m1.order()[j1] == b;
            if j < k {
                assert(m1.order()[j] == a);
            } else {
                assert(spec.before(columns, b as int, a as int));
                if j1 < k {
                    assert(m2.order()[j1] == b);
                } else {
                    assert(spec.before(columns, a as int, b as int));
                }
            }
        }
    }
}

/// Building the same spec twice over the same data gives the same visual
/// order.
pub proof fn lemma_build_deterministic(
    spec: RemapSpec,
    n: nat,
    columns: Seq<Vec<i64>>,
    m1: Remap,
    m2: Remap,
)
    requires
        spec.valid_for(n, columns),
        m1.built_from(spec, n, columns),
        m2.built_from(spec, n, columns),
    ensures
        m1.order() == m2.order(),
{
    lemma_orders_agree_upto(spec, n, columns, m1, m2, m1.order().len() as int);
    assert(m1.order() =~= m2.order());
}

/// Sorting one key column descending shows the rows in the reverse of the
/// ascending order, except that rows with equal keys keep their logical
/// order in both.
pub proof fn lemma_descending_reverses_ascending(
    column: usize,
    retain: Option<Vec<usize>>,
    n: nat,
    columns: Seq<Vec<i64>>,
    up: Remap,
    down: Remap,
)
    requires
        up.built_from(
            RemapSpec {
                sort: Some(SortSpec { column, direction: SortDirection::Ascending }),
                retain,
            },
            n,
            columns,
        ),
        down.built_from(
            RemapSpec {
                sort: Some(SortSpec { column, direction: SortDirection::Descending }),
                retain,
            },
            n,
            columns,
        ),
    ensures
        forall|i: int, j: int, p: int, q: int|
            0 <= i < j < up.visible_len() && 0 <= p < down.visible_len() && 0 <= q
                < down.visible_len() && #[trigger] up.order()[i] == #[trigger] down.order()[q]
                && #[trigger] up.order()[j] == #[trigger] down.order()[p] ==> {
                let key = columns[column as int]@;
                &&& key[up.order()[i] as int] != key[up.order()[j] as int] ==> p < q
                &&& key[up.order()[i] as int] == key[up.order()[j] as int] ==> q < p
            },
{
    let sa = RemapSpec {
        sort: Some(SortSpec { column, direction: SortDirection::Ascending }),
        retain,
    };
    let sd = RemapSpec {
        sort: Some(SortSpec { column, direction: SortDirection::Descending }),
        retain,
    };
    assert forall|i: int, j: int, p: int, q: int|
        0 <= i < j < up.visible_len() && 0 <= p < down.visible_len() && 0 <= q
            < down.visible_len() && #[trigger] up.order()[i] == #[trigger] down.order()[q]
            && #[trigger] up.order()[j] == #[trigger] down.order()[p] implies {
        let key = columns[column as int]@;
        &&& key[up.order()[i] as int] != key[up.order()[j] as int] ==> p < q
        &&& key[up.order()[i] as int] == key[up.order()[j] as int] ==> q < p
    } by {
        assert(sa.before(columns, up.order()[i] as int, up.order()[j] as int));
        assert(up.order()[i] != up.order()[j]);
        if p < q {
            assert(sd.before(columns, down.order()[p] as int, down.order()[q] as int));
        } else if q < p {
            assert(sd.before(columns, down.order()[q] as int, down.order()[p] as int));
        }
    }
}

/// Filtering hides exactly the rows that fail the filter, and the spec that
/// neither sorts nor filters shows every row at its own logical position.
pub proof fn lemma_filter_count(spec: RemapSpec, n: nat, columns: Seq<Vec<i64>>, m: Remap)
    requires
        spec.valid_for(n, columns),
        m.built_from(spec, n, columns),
    ensures
        m.visible_len() == n - count_filtered_out(spec, n as int),
        spec.is_identity() ==> m.is_identity_of(n),
{
    if spec.is_identity() {
        let id = Remap { source_len: n as usize, mapping: Mapping::Identity };
        assert(id.order() =~= Seq::new(n, |i: int| i as usize));
        lemma_identity_built(spec, n, columns, id);
        lemma_build_deterministic(spec, n, columns, m, id);
    }
}

} // verus!
