//! An ordered set of keys, held in memory: what the store asks of the
//! column families of an ordered key-value engine. The keys stand in their
//! order, byte by byte, and a scan of the keys that begin with a prefix stops
//! at a bound that is computed from the prefix.

use vstd::prelude::*;

verus! {

/// The order of the keys: byte by byte, a key before every key that it
/// begins.
pub open spec fn key_lt(a: Seq<u8>, b: Seq<u8>) -> bool
    decreases a.len(),
{
    if b.len() == 0 {
        false
    } else if a.len() == 0 {
        true
    } else if a[0] != b[0] {
        a[0] < b[0]
    } else {
        key_lt(a.drop_first(), b.drop_first())
    }
}

/// Whether a key begins with a prefix.
pub open spec fn begins_with(key: Seq<u8>, prefix: Seq<u8>) -> bool {
    prefix.len() <= key.len() && key.take(prefix.len() as int) == prefix
}

/// The place of the last byte of a prefix that is not the greatest byte, if
/// there is one.
pub open spec fn last_below_max(prefix: Seq<u8>) -> Option<int>
    decreases prefix.len(),
{
    if prefix.len() == 0 {
        None
    } else if prefix.last() < 255 {
        Some(prefix.len() - 1)
    } else {
        last_below_max(prefix.drop_last())
    }
}

/// The bound of the scan of a prefix: the prefix with its last byte that is
/// not the greatest raised by one, the bytes behind left as they are. None
/// where every byte is the greatest, and for the empty prefix: the scan then
/// runs to the end.
pub open spec fn upper_bound_of(prefix: Seq<u8>) -> Option<Seq<u8>> {
    match last_below_max(prefix) {
        Some(at) => Some(prefix.update(at, (prefix[at] + 1) as u8)),
        None => None,
    }
}

proof fn lemma_last_below_max(prefix: Seq<u8>)
    ensures
        match last_below_max(prefix) {
            Some(at) => 0 <= at < prefix.len() && prefix[at] < 255 && forall|i: int|
                at < i < prefix.len() ==> prefix[i] == 255,
            None => forall|i: int| 0 <= i < prefix.len() ==> prefix[i] == 255,
        },
    decreases prefix.len(),
{
    if prefix.len() > 0 && prefix.last() == 255 {
        lemma_last_below_max(prefix.drop_last());
        assert forall|i: int| 0 <= i < prefix.len() - 1 implies prefix[i]
            == prefix.drop_last()[i] by {}
    }
}

/// Computes the bound of the scan of a prefix.
pub fn prefix_upper_bound(prefix: &[u8]) -> (r: Option<Vec<u8>>)
    ensures
        match r {
            Some(bound) => upper_bound_of(prefix@) == Some(bound@),
            None => upper_bound_of(prefix@) is None,
        },
{
    let mut bound: Vec<u8> = Vec::new();
    let mut k: usize = 0;
    while k < prefix.len()
        invariant
            k <= prefix@.len(),
            bound@ == prefix@.take(k as int),
        decreases prefix@.len() - k,
    {
        bound.push(prefix[k]);
        proof {
            assert(bound@ =~= prefix@.take(k as int + 1));
        }
        k += 1;
    }
    proof {
        assert(prefix@.take(prefix@.len() as int) =~= prefix@);
        lemma_last_below_max(prefix@);
    }
    let mut i: usize = bound.len();
    while i > 0
        invariant
            i <= bound@.len(),
            bound@ == prefix@,
            forall|j: int| i <= j < prefix@.len() ==> prefix@[j] == 255,
            match last_below_max(prefix@) {
                Some(at) => 0 <= at < prefix@.len() && prefix@[at] < 255 && forall|j: int|
                    at < j < prefix@.len() ==> prefix@[j] == 255,
                None => forall|j: int| 0 <= j < prefix@.len() ==> prefix@[j] == 255,
            },
        decreases i,
    {
        if bound[i - 1] < 255 {
            let raised: u8 = bound[i - 1] + 1;
            bound[i - 1] = raised;
            proof {
                let at = last_below_max(prefix@)->Some_0;
                if at < i - 1 {
                    assert(prefix@[i - 1] == 255);
                }
                if at > i - 1 {
                    assert(prefix@[at] == 255);
                }
            }
            return Some(bound);
        }
        i -= 1;
    }
    None
}

proof fn lemma_lt_at(a: Seq<u8>, b: Seq<u8>, at: int)
    requires
        0 <= at < a.len(),
        at < b.len(),
        a.take(at) == b.take(at),
        a[at] < b[at],
    ensures
        key_lt(a, b),
    decreases at,
{
    if at > 0 {
        assert(a[0] == a.take(at)[0]);
        assert(b[0] == b.take(at)[0]);
        assert(a.drop_first().take(at - 1) =~= a.take(at).drop_first());
        assert(b.drop_first().take(at - 1) =~= b.take(at).drop_first());
        lemma_lt_at(a.drop_first(), b.drop_first(), at - 1);
    }
}

/// Every key that begins with a prefix comes before the bound of the scan
/// of the prefix: the scan cuts no such key off.
pub proof fn lemma_upper_bound_covers(prefix: Seq<u8>, key: Seq<u8>)
    requires
        begins_with(key, prefix),
        upper_bound_of(prefix) is Some,
    ensures
        key_lt(key, upper_bound_of(prefix)->Some_0),
{
    lemma_last_below_max(prefix);
    let at = last_below_max(prefix)->Some_0;
    let bound = upper_bound_of(prefix)->Some_0;
    assert(key[at] == key.take(prefix.len() as int)[at]);
    assert(key.take(at) =~= bound.take(at)) by {
        assert forall|i: int| 0 <= i < at implies key.take(at)[i] == bound.take(at)[i] by {
            assert(key[i] == key.take(prefix.len() as int)[i]);
        }
    }
    lemma_lt_at(key, bound, at);
}

/// Whether a key is a prefix or comes behind it.
pub open spec fn key_le(a: Seq<u8>, b: Seq<u8>) -> bool {
    a == b || key_lt(a, b)
}

proof fn lemma_bounded_begins(prefix: Seq<u8>, bound: Seq<u8>, key: Seq<u8>)
    requires
        prefix.len() > 0,
        prefix.last() < 255,
        bound == prefix.update(prefix.len() - 1, (prefix.last() + 1) as u8),
        key_le(prefix, key),
        key_lt(key, bound),
    ensures
        begins_with(key, prefix),
    decreases prefix.len(),
{
    if prefix.len() == 1 {
        if key.len() == 0 {
            assert(prefix != key);
        } else {
            if prefix != key {
                assert(key_lt(prefix, key));
            }
            assert(bound.drop_first().len() == 0);
            assert(!key_lt(key.drop_first(), bound.drop_first()));
            assert(bound[0] == prefix[0] + 1);
            assert(key[0] <= prefix[0]);
            assert(prefix[0] <= key[0]) by {
                if prefix == key {
                } else if prefix[0] == key[0] {
                }
            }
            assert(key[0] == prefix[0]);
            assert(key.take(1) =~= prefix);
        }
    } else {
        assert(key.len() > 0) by {
            if key.len() == 0 {
                assert(prefix != key);
            }
        }
        assert(bound[0] == prefix[0]);
        assert(key[0] == prefix[0]);
        let p = prefix.drop_first();
        let b = bound.drop_first();
        let k = key.drop_first();
        assert(b =~= p.update(p.len() - 1, (p.last() + 1) as u8));
        assert(key_le(p, k)) by {
            if prefix == key {
                assert(p =~= k);
            }
        }
        lemma_bounded_begins(p, b, k);
        assert(key.take(prefix.len() as int) =~= prefix) by {
            assert forall|i: int| 0 <= i < prefix.len() implies key[i] == prefix[i] by {
                if i > 0 {
                    assert(k.take(p.len() as int)[i - 1] == p[i - 1]);
                }
            }
        }
    }
}

/// Where the last byte of a prefix is not the greatest byte, the keys from
/// the prefix up to the bound of its scan are those that begin with the
/// prefix, and no others.
pub proof fn lemma_upper_bound_is_tight(prefix: Seq<u8>, key: Seq<u8>)
    requires
        prefix.len() > 0,
        prefix.last() < 255,
    ensures
        upper_bound_of(prefix) is Some,
        (key_le(prefix, key) && key_lt(key, upper_bound_of(prefix)->Some_0)) <==> begins_with(
            key,
            prefix,
        ),
{
    let bound = upper_bound_of(prefix)->Some_0;
    if begins_with(key, prefix) {
        lemma_upper_bound_covers(prefix, key);
        lemma_begins_le(prefix, key);
    }
    if key_le(prefix, key) && key_lt(key, bound) {
        lemma_bounded_begins(prefix, bound, key);
    }
}

proof fn lemma_begins_le(prefix: Seq<u8>, key: Seq<u8>)
    requires
        begins_with(key, prefix),
    ensures
        key_le(prefix, key),
    decreases prefix.len(),
{
    if prefix.len() == 0 {
        if key.len() == 0 {
            assert(prefix =~= key);
        }
    } else {
        assert(key[0] == key.take(prefix.len() as int)[0]);
        assert(key.drop_first().take(prefix.len() - 1) =~= key.take(
            prefix.len() as int,
        ).drop_first());
        lemma_begins_le(prefix.drop_first(), key.drop_first());
        if prefix.drop_first() == key.drop_first() {
            assert(prefix =~= key);
        }
    }
}

pub proof fn lemma_key_lt_irreflexive(a: Seq<u8>)
    ensures
        !key_lt(a, a),
    decreases a.len(),
{
    if a.len() > 0 {
        lemma_key_lt_irreflexive(a.drop_first());
    }
}

pub proof fn lemma_key_lt_transitive(a: Seq<u8>, b: Seq<u8>, c: Seq<u8>)
    requires
        key_lt(a, b),
        key_lt(b, c),
    ensures
        key_lt(a, c),
    decreases a.len(),
{
    if a.len() > 0 && b.len() > 0 && c.len() > 0 {
        if a[0] == b[0] && b[0] == c[0] {
            lemma_key_lt_transitive(a.drop_first(), b.drop_first(), c.drop_first());
        }
    }
}

pub proof fn lemma_key_lt_total(a: Seq<u8>, b: Seq<u8>)
    ensures
        key_lt(a, b) || a == b || key_lt(b, a),
    decreases a.len(),
{
    if a.len() > 0 && b.len() > 0 {
        if a[0] == b[0] {
            lemma_key_lt_total(a.drop_first(), b.drop_first());
            if a.drop_first() == b.drop_first() {
                assert forall|i: int| 0 <= i < a.len() implies a[i] == b[i] by {
                    if i > 0 {
                        assert(a[i] == a.drop_first()[i - 1]);
                        assert(b[i] == b.drop_first()[i - 1]);
                    }
                }
                assert(a.len() == a.drop_first().len() + 1);
                assert(b.len() == b.drop_first().len() + 1);
                assert(a =~= b);
            }
        }
    } else if a.len() == 0 && b.len() == 0 {
        assert(a =~= b);
    }
}

/// Whether a key comes before another.
pub fn key_less(a: &[u8], b: &[u8]) -> (r: bool)
    ensures
        r == key_lt(a@, b@),
{
    let mut i: usize = 0;
    proof {
        assert(a@.skip(0) =~= a@);
        assert(b@.skip(0) =~= b@);
    }
    loop
        invariant
            i <= a@.len(),
            i <= b@.len(),
            key_lt(a@, b@) == key_lt(a@.skip(i as int), b@.skip(i as int)),
        decreases a@.len() - i,
    {
        if i >= b.len() {
            return false;
        }
        if i >= a.len() {
            return true;
        }
        proof {
            assert(a@.skip(i as int)[0] == a@[i as int]);
            assert(b@.skip(i as int)[0] == b@[i as int]);
            assert(a@.skip(i as int).drop_first() =~= a@.skip(i as int + 1));
            assert(b@.skip(i as int).drop_first() =~= b@.skip(i as int + 1));
        }
        if a[i] != b[i] {
            return a[i] < b[i];
        }
        i += 1;
    }
}

/// Whether a key begins with a prefix.
pub fn key_begins_with(key: &[u8], prefix: &[u8]) -> (r: bool)
    ensures
        r == begins_with(key@, prefix@),
{
    if prefix.len() > key.len() {
        return false;
    }
    let mut i: usize = 0;
    while i < prefix.len()
        invariant
            i <= prefix@.len() <= key@.len(),
            forall|j: int| 0 <= j < i ==> key@[j] == prefix@[j],
        decreases prefix@.len() - i,
    {
        if key[i] != prefix[i] {
            proof {
                assert(key@.take(prefix@.len() as int)[i as int] != prefix@[i as int]);
            }
            return false;
        }
        i += 1;
    }
    proof {
        assert(key@.take(prefix@.len() as int) =~= prefix@);
    }
    true
}

/// What some keys are, one for one.
pub open spec fn key_views(keys: Seq<Vec<u8>>) -> Seq<Seq<u8>> {
    Seq::new(keys.len(), |i: int| keys[i]@)
}

/// Whether some keys stand in their order, none twice.
pub open spec fn is_sorted(keys: Seq<Seq<u8>>) -> bool {
    forall|i: int, j: int| 0 <= i < j < keys.len() ==> key_lt(#[trigger] keys[i], #[trigger] keys[j])
}

/// The keys, of some keys, that begin with a prefix, in their order.
pub open spec fn with_prefix(keys: Seq<Seq<u8>>, prefix: Seq<u8>) -> Seq<Seq<u8>>
    decreases keys.len(),
{
    if keys.len() == 0 {
        Seq::empty()
    } else if begins_with(keys.last(), prefix) {
        with_prefix(keys.drop_last(), prefix).push(keys.last())
    } else {
        with_prefix(keys.drop_last(), prefix)
    }
}

/// The keys that begin with a prefix are those of the keys of which that
/// holds, and they stand in the order of the keys.
pub proof fn lemma_with_prefix(keys: Seq<Seq<u8>>, prefix: Seq<u8>)
    ensures
        forall|key: Seq<u8>|
            #![trigger with_prefix(keys, prefix).contains(key)]
            with_prefix(keys, prefix).contains(key) <==> keys.contains(key) && begins_with(
                key,
                prefix,
            ),
        is_sorted(keys) ==> is_sorted(with_prefix(keys, prefix)),
    decreases keys.len(),
{
    let all = with_prefix(keys, prefix);
    if keys.len() > 0 {
        let front = keys.drop_last();
        let last = keys.last();
        lemma_with_prefix(front, prefix);
        let before = with_prefix(front, prefix);
        assert forall|key: Seq<u8>|
            #![trigger all.contains(key)]
            all.contains(key) <==> keys.contains(key) && begins_with(key, prefix) by {
            if all.contains(key) {
                let i = choose|i: int| 0 <= i < all.len() && all[i] == key;
                if begins_with(last, prefix) && i == all.len() - 1 {
                    assert(keys[keys.len() - 1] == key);
                } else {
                    assert(before[i] == key);
                    assert(before.contains(key));
                    let j = choose|j: int| 0 <= j < front.len() && front[j] == key;
                    assert(keys[j] == key);
                }
            }
            if keys.contains(key) && begins_with(key, prefix) {
                let j = choose|j: int| 0 <= j < keys.len() && keys[j] == key;
                if j == keys.len() - 1 {
                    assert(all[all.len() - 1] == key);
                } else {
                    assert(front[j] == key);
                    assert(before.contains(key));
                    let i = choose|i: int| 0 <= i < before.len() && before[i] == key;
                    assert(all[i] == key);
                }
            }
        }
        if is_sorted(keys) {
            assert(is_sorted(front)) by {
                assert forall|i: int, j: int| 0 <= i < j < front.len() implies key_lt(
                    #[trigger] front[i],
                    #[trigger] front[j],
                ) by {
                    assert(front[i] == keys[i] && front[j] == keys[j]);
                }
            }
            assert forall|i: int, j: int| 0 <= i < j < all.len() implies key_lt(
                #[trigger] all[i],
                #[trigger] all[j],
            ) by {
                if begins_with(last, prefix) && j == all.len() - 1 {
                    assert(before[i] == all[i]);
                    assert(before.contains(all[i]));
                    let k = choose|k: int| 0 <= k < front.len() && front[k] == all[i];
                    assert(keys[k] == all[i]);
                    assert(key_lt(keys[k], keys[keys.len() - 1]));
                } else {
                    assert(before[i] == all[i] && before[j] == all[j]);
                }
            }
        }
    } else {
        assert forall|key: Seq<u8>|
            #![trigger all.contains(key)]
            all.contains(key) <==> keys.contains(key) && begins_with(key, prefix) by {
            assert(all.len() == 0);
        }
    }
}

/// Behind a place from which no key begins with the prefix, the keys add
/// nothing to those that begin with it.
proof fn lemma_with_prefix_rest(keys: Seq<Seq<u8>>, prefix: Seq<u8>, n: int)
    requires
        0 <= n <= keys.len(),
        forall|j: int| n <= j < keys.len() ==> !begins_with(#[trigger] keys[j], prefix),
    ensures
        with_prefix(keys, prefix) == with_prefix(keys.take(n), prefix),
    decreases keys.len() - n,
{
    if n < keys.len() {
        let front = keys.drop_last();
        assert(!begins_with(keys[keys.len() - 1], prefix));
        assert forall|j: int| n <= j < front.len() implies !begins_with(
            #[trigger] front[j],
            prefix,
        ) by {
            assert(front[j] == keys[j]);
        }
        lemma_with_prefix_rest(front, prefix, n);
        assert(front.take(n) =~= keys.take(n));
    } else {
        assert(keys.take(n) =~= keys);
    }
}

/// An ordered set of keys: a column family whose values are empty.
pub struct ColumnFamily {
    keys: Vec<Vec<u8>>,
}

impl View for ColumnFamily {
    type V = Seq<Seq<u8>>;

    closed spec fn view(&self) -> Seq<Seq<u8>> {
        key_views(self.keys@)
    }
}

fn copy_key(key: &[u8]) -> (r: Vec<u8>)
    ensures
        r@ == key@,
{
    let mut out: Vec<u8> = Vec::new();
    let mut i: usize = 0;
    while i < key.len()
        invariant
            i <= key@.len(),
            out@ == key@.take(i as int),
        decreases key@.len() - i,
    {
        out.push(key[i]);
        proof {
            assert(out@ =~= key@.take(i as int + 1));
        }
        i += 1;
    }
    proof {
        assert(key@.take(key@.len() as int) =~= key@);
    }
    out
}

impl ColumnFamily {
    /// The keys stand in their order, none twice.
    pub open spec fn wf(&self) -> bool {
        is_sorted(self@)
    }

    /// A column family without keys.
    pub fn new() -> (r: Self)
        ensures
            r.wf(),
            r@ == Seq::<Seq<u8>>::empty(),
    {
        let r = Self { keys: Vec::new() };
        proof {
            assert(r@ =~= Seq::<Seq<u8>>::empty());
        }
        r
    }

    /// The number of keys.
    pub fn len(&self) -> (r: usize)
        ensures
            r == self@.len(),
    {
        self.keys.len()
    }

    /// Whether there is no key.
    pub fn is_empty(&self) -> (r: bool)
        ensures
            r == (self@.len() == 0),
    {
        self.keys.len() == 0
    }

    /// The key at a place.
    pub fn key(&self, at: usize) -> (r: &Vec<u8>)
        requires
            at < self@.len(),
        ensures
            r@ == self@[at as int],
    {
        &self.keys[at]
    }

    /// The first place at which a key stands that does not come before the
    /// given one.
    fn lower_bound(&self, key: &[u8]) -> (r: usize)
        requires
            self.wf(),
        ensures
            r <= self@.len(),
            forall|j: int| 0 <= j < r ==> key_lt(#[trigger] self@[j], key@),
            forall|j: int| r <= j < self@.len() ==> !key_lt(#[trigger] self@[j], key@),
    {
        let mut i: usize = 0;
        while i < self.keys.len()
            invariant
                i <= self@.len(),
                self.wf(),
                forall|j: int| 0 <= j < i ==> key_lt(#[trigger] self@[j], key@),
            decreases self@.len() - i,
        {
            if !key_less(self.keys[i].as_slice(), key) {
                proof {
                    assert(self@[i as int] == self.keys@[i as int]@);
                    assert forall|j: int| i <= j < self@.len() implies !key_lt(
                        #[trigger] self@[j],
                        key@,
                    ) by {
                        if j > i {
                            assert(key_lt(self@[i as int], self@[j]));
                            if key_lt(self@[j], key@) {
                                lemma_key_lt_transitive(self@[i as int], self@[j], key@);
                            }
                        }
                    }
                }
                return i;
            }
            proof {
                assert(self@[i as int] == self.keys@[i as int]@);
            }
            i += 1;
        }
        i
    }

    /// Whether a key is there.
    pub fn contains_key(&self, key: &[u8]) -> (r: bool)
        requires
            self.wf(),
        ensures
            r == self@.contains(key@),
    {
        let at = self.lower_bound(key);
        if at < self.keys.len() {
            let found = !key_less(key, self.keys[at].as_slice());
            proof {
                assert(self@[at as int] == self.keys@[at as int]@);
                lemma_key_lt_total(self@[at as int], key@);
                self.lemma_absent(key@, at as int);
                if found {
                    assert(self@[at as int] == key@);
                }
            }
            found
        } else {
            proof {
                self.lemma_absent(key@, at as int);
            }
            false
        }
    }

    /// A key is there only at the first place at which a key stands that
    /// does not come before it.
    proof fn lemma_absent(&self, key: Seq<u8>, at: int)
        requires
            self.wf(),
            0 <= at <= self@.len(),
            forall|j: int| 0 <= j < at ==> key_lt(#[trigger] self@[j], key),
            forall|j: int| at <= j < self@.len() ==> !key_lt(#[trigger] self@[j], key),
        ensures
            self@.contains(key) ==> at < self@.len() && self@[at] == key,
    {
        if self@.contains(key) {
            let k = choose|k: int| 0 <= k < self@.len() && self@[k] == key;
            lemma_key_lt_irreflexive(key);
            if k < at {
                assert(key_lt(self@[k], key));
            } else if k > at {
                assert(key_lt(self@[at], self@[k]));
                assert(!key_lt(self@[at], key));
            }
        }
    }

    /// Puts a key in, at its place in the order. Nothing changes where the
    /// key is there.
    pub fn insert_empty(&mut self, key: &[u8]) -> (r: bool)
        requires
            old(self).wf(),
        ensures
            final(self).wf(),
            r == !old(self)@.contains(key@),
            r ==> exists|at: int|
                0 <= at <= old(self)@.len()
                    && #[trigger] old(self)@.insert(at, key@) == final(self)@,
            !r ==> final(self)@ == old(self)@,
    {
        let at = self.lower_bound(key);
        proof {
            self.lemma_absent(key@, at as int);
        }
        if at < self.keys.len() && !key_less(key, self.keys[at].as_slice()) {
            proof {
                assert(self@[at as int] == self.keys@[at as int]@);
                lemma_key_lt_total(self@[at as int], key@);
            }
            return false;
        }
        proof {
            if at < self@.len() {
                assert(self@[at as int] == self.keys@[at as int]@);
                lemma_key_lt_irreflexive(key@);
            }
        }
        let ghost before = self@;
        self.keys.insert(at, copy_key(key));
        proof {
            let after = self@;
            assert(after =~= before.insert(at as int, key@));
            assert forall|i: int, j: int| 0 <= i < j < after.len() implies key_lt(
                #[trigger] after[i],
                #[trigger] after[j],
            ) by {
                let a = if i < at {
                    i
                } else {
                    i - 1
                };
                let b = if j < at {
                    j
                } else {
                    j - 1
                };
                if i == at {
                    assert(after[j] == before[b]);
                    assert(key_lt(key@, before[at as int]));
                    if b > at {
                        assert(key_lt(before[at as int], before[b]));
                        lemma_key_lt_transitive(key@, before[at as int], before[b]);
                    }
                } else if j == at {
                    assert(after[i] == before[a]);
                } else {
                    assert(after[i] == before[a] && after[j] == before[b]);
                }
            }
        }
        true
    }

    /// Takes a key out. Nothing changes where the key is not there.
    pub fn remove(&mut self, key: &[u8]) -> (r: bool)
        requires
            old(self).wf(),
        ensures
            final(self).wf(),
            r == old(self)@.contains(key@),
            r ==> exists|at: int|
                0 <= at < old(self)@.len() && old(self)@[at] == key@
                    && #[trigger] old(self)@.remove(at) == final(self)@,
            !r ==> final(self)@ == old(self)@,
    {
        let at = self.lower_bound(key);
        proof {
            self.lemma_absent(key@, at as int);
        }
        if at >= self.keys.len() || key_less(key, self.keys[at].as_slice()) {
            proof {
                if at < self@.len() {
                    assert(self@[at as int] == self.keys@[at as int]@);
                    lemma_key_lt_irreflexive(key@);
                }
            }
            return false;
        }
        proof {
            assert(self@[at as int] == self.keys@[at as int]@);
            lemma_key_lt_total(self@[at as int], key@);
        }
        let ghost before = self@;
        let _ = self.keys.remove(at);
        proof {
            let after = self@;
            assert(after =~= before.remove(at as int));
            assert forall|i: int, j: int| 0 <= i < j < after.len() implies key_lt(
                #[trigger] after[i],
                #[trigger] after[j],
            ) by {
                let a = if i < at {
                    i
                } else {
                    i + 1
                };
                let b = if j < at {
                    j
                } else {
                    j + 1
                };
                assert(after[i] == before[a] && after[j] == before[b]);
            }
        }
        true
    }

    /// The keys that begin with a prefix, in their order. The scan stops at
    /// the bound of the prefix, behind which no key begins with it.
    pub fn scan_prefix(&self, prefix: &[u8]) -> (r: Vec<Vec<u8>>)
        requires
            self.wf(),
        ensures
            key_views(r@) == with_prefix(self@, prefix@),
    {
        let upper_bound = prefix_upper_bound(prefix);
        let mut out: Vec<Vec<u8>> = Vec::new();
        let mut i: usize = 0;
        proof {
            assert(self@.take(0) =~= Seq::<Seq<u8>>::empty());
            assert(key_views(out@) =~= Seq::<Seq<u8>>::empty());
        }
        while i < self.keys.len()
            invariant
                i <= self@.len(),
                self.wf(),
                key_views(out@) == with_prefix(self@.take(i as int), prefix@),
                match upper_bound {
                    Some(bound) => upper_bound_of(prefix@) == Some(bound@),
                    None => upper_bound_of(prefix@) is None,
                },
            decreases self@.len() - i,
        {
            let key = &self.keys[i];
            proof {
                assert(self@[i as int] == key@);
                assert(self@.take(i as int + 1).drop_last() =~= self@.take(i as int));
                assert(self@.take(i as int + 1).last() == self@[i as int]);
            }
            let beyond = match &upper_bound {
                Some(bound) => !key_less(key.as_slice(), bound.as_slice()),
                None => false,
            };
            if beyond {
                proof {
                    let bound = upper_bound_of(prefix@)->Some_0;
                    assert forall|j: int| i <= j < self@.len() implies !begins_with(
                        #[trigger] self@[j],
                        prefix@,
                    ) by {
                        if begins_with(self@[j], prefix@) {
                            lemma_upper_bound_covers(prefix@, self@[j]);
                            if j > i {
                                assert(key_lt(self@[i as int], self@[j]));
                                lemma_key_lt_transitive(self@[i as int], self@[j], bound);
                            }
                        }
                    }
                    lemma_with_prefix_rest(self@, prefix@, i as int);
                }
                return out;
            }
            if key_begins_with(key.as_slice(), prefix) {
                let ghost before = key_views(out@);
                out.push(copy_key(key.as_slice()));
                proof {
                    assert(key_views(out@) =~= before.push(key@));
                }
            }
            i += 1;
        }
        proof {
            assert(self@.take(self@.len() as int) =~= self@);
        }
        out
    }

    /// A copy of the column family.
    pub fn duplicate(&self) -> (r: Self)
        ensures
            r@ == self@,
    {
        let mut keys: Vec<Vec<u8>> = Vec::new();
        let mut i: usize = 0;
        while i < self.keys.len()
            invariant
                i <= self.keys@.len(),
                self.keys@.len() == self@.len(),
                key_views(keys@) == self@.take(i as int),
            decreases self.keys@.len() - i,
        {
            let ghost before = key_views(keys@);
            keys.push(copy_key(self.keys[i].as_slice()));
            proof {
                assert(self@[i as int] == self.keys@[i as int]@);
                assert(key_views(keys@) =~= before.push(self@[i as int]));
                assert(key_views(keys@) =~= self@.take(i as int + 1));
            }
            i += 1;
        }
        proof {
            assert(self@.take(self@.len() as int) =~= self@);
        }
        Self { keys }
    }
}

} // verus!
