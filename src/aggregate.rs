//! The DNS servers learned from every discovery origin: the latest complete
//! list per origin, kept in a canonical order of origin names.

use vstd::prelude::*;
use vstd::seq_lib::lemma_flatten_concat;
use vstd::utf8::{encode_utf8, encode_utf8_decode_utf8};
use crate::dns::{
    consolidate, consolidate_servers, distinct_addresses, rank_ordering, source_rank, DnsServer,
};

verus! {

/// Lexicographic order on byte strings.
pub open spec fn bytes_lt(a: Seq<u8>, b: Seq<u8>) -> bool
    decreases a.len(),
{
    if a.len() == 0 {
        b.len() > 0
    } else if b.len() == 0 {
        false
    } else if a[0] != b[0] {
        a[0] < b[0]
    } else {
        bytes_lt(a.drop_first(), b.drop_first())
    }
}

/// Origin names are ordered by their UTF-8 encoding.
pub open spec fn name_lt(a: Seq<char>, b: Seq<char>) -> bool {
    bytes_lt(encode_utf8(a), encode_utf8(b))
}

proof fn lemma_bytes_lt_irreflexive(a: Seq<u8>)
    ensures
        !bytes_lt(a, a),
    decreases a.len(),
{
    if a.len() > 0 {
        lemma_bytes_lt_irreflexive(a.drop_first());
    }
}

proof fn lemma_bytes_lt_transitive(a: Seq<u8>, b: Seq<u8>, c: Seq<u8>)
    requires
        bytes_lt(a, b),
        bytes_lt(b, c),
    ensures
        bytes_lt(a, c),
    decreases a.len(),
{
    if a.len() > 0 && b.len() > 0 && c.len() > 0 && a[0] == b[0] && b[0] == c[0] {
        lemma_bytes_lt_transitive(a.drop_first(), b.drop_first(), c.drop_first());
    }
}

proof fn lemma_bytes_lt_total(a: Seq<u8>, b: Seq<u8>)
    requires
        a != b,
    ensures
        bytes_lt(a, b) || bytes_lt(b, a),
    decreases a.len(),
{
    if a.len() > 0 && b.len() > 0 && a[0] == b[0] {
        if a.drop_first() == b.drop_first() {
            assert(a =~= seq![a[0]] + a.drop_first());
            assert(b =~= seq![b[0]] + b.drop_first());
        }
        lemma_bytes_lt_total(a.drop_first(), b.drop_first());
    } else if a.len() == 0 && b.len() == 0 {
        assert(a =~= b);
    }
}

proof fn lemma_bytes_lt_skip(a: Seq<u8>, b: Seq<u8>, i: int)
    requires
        0 <= i <= a.len(),
        i <= b.len(),
        a.subrange(0, i) == b.subrange(0, i),
    ensures
        bytes_lt(a, b) == bytes_lt(a.skip(i), b.skip(i)),
    decreases i,
{
    if i == 0 {
        assert(a.skip(0) =~= a);
        assert(b.skip(0) =~= b);
    } else {
        assert(a[0] == a.subrange(0, i)[0]);
        assert(b[0] == b.subrange(0, i)[0]);
        assert(a.drop_first().subrange(0, i - 1) =~= a.subrange(0, i).drop_first());
        assert(b.drop_first().subrange(0, i - 1) =~= b.subrange(0, i).drop_first());
        lemma_bytes_lt_skip(a.drop_first(), b.drop_first(), i - 1);
        assert(a.drop_first().skip(i - 1) =~= a.skip(i));
        assert(b.drop_first().skip(i - 1) =~= b.skip(i));
    }
}

proof fn lemma_name_lt_irreflexive(a: Seq<char>)
    ensures
        !name_lt(a, a),
{
    lemma_bytes_lt_irreflexive(encode_utf8(a));
}

proof fn lemma_name_lt_transitive(a: Seq<char>, b: Seq<char>, c: Seq<char>)
    requires
        name_lt(a, b),
        name_lt(b, c),
    ensures
        name_lt(a, c),
{
    lemma_bytes_lt_transitive(encode_utf8(a), encode_utf8(b), encode_utf8(c));
}

pub open spec fn strictly_sorted(ks: Seq<Seq<char>>) -> bool {
    forall|i: int, j: int| 0 <= i < j < ks.len() ==> name_lt(#[trigger] ks[i], #[trigger] ks[j])
}

/// Two strictly sorted sequences of names holding the same names are equal.
proof fn lemma_sorted_unique(x: Seq<Seq<char>>, y: Seq<Seq<char>>)
    requires
        strictly_sorted(x),
        strictly_sorted(y),
        forall|n: Seq<char>| x.contains(n) == y.contains(n),
    ensures
        x == y,
    decreases x.len(),
{
    if x.len() == 0 {
        if y.len() > 0 {
            assert(y.contains(y[0]));
        }
        assert(x =~= y);
    } else {
        assert(x.contains(x[0]));
        let j = choose|j: int| 0 <= j < y.len() && y[j] == x[0];
        assert(y.contains(y[0]));
        let i = choose|i: int| 0 <= i < x.len() && x[i] == y[0];
        if x[0] != y[0] {
            assert(name_lt(y[0], y[j]));
            assert(name_lt(x[0], x[i]));
            lemma_name_lt_transitive(x[0], y[0], x[0]);
            lemma_name_lt_irreflexive(x[0]);
        }
        let x1 = x.drop_first();
        let y1 = y.drop_first();
        assert forall|n: Seq<char>| x1.contains(n) == y1.contains(n) by {
            if x1.contains(n) {
                let k = choose|k: int| 0 <= k < x1.len() && x1[k] == n;
                assert(x[k + 1] == n);
                assert(name_lt(x[0], x[k + 1]));
                lemma_name_lt_irreflexive(n);
                assert(y.contains(n));
                let m = choose|m: int| 0 <= m < y.len() && y[m] == n;
                assert(m != 0);
                assert(y1[m - 1] == n);
            }
            if y1.contains(n) {
                let k = choose|k: int| 0 <= k < y1.len() && y1[k] == n;
                assert(y[k + 1] == n);
                assert(name_lt(y[0], y[k + 1]));
                lemma_name_lt_irreflexive(n);
                assert(x.contains(n));
                let m = choose|m: int| 0 <= m < x.len() && x[m] == n;
                assert(m != 0);
                assert(x1[m - 1] == n);
            }
        }
        lemma_sorted_unique(x1, y1);
        assert(x =~= seq![x[0]] + x1);
        assert(y =~= seq![y[0]] + y1);
    }
}

proof fn lemma_name_lt_total(a: Seq<char>, b: Seq<char>)
    requires
        a != b,
    ensures
        name_lt(a, b) || name_lt(b, a),
{
    encode_utf8_decode_utf8(a);
    encode_utf8_decode_utf8(b);
    lemma_bytes_lt_total(encode_utf8(a), encode_utf8(b));
}

/// Compares two byte strings lexicographically.
fn compare_bytes(a: &[u8], b: &[u8]) -> (r: std::cmp::Ordering)
    ensures
        (r == std::cmp::Ordering::Less) == bytes_lt(a@, b@),
        (r == std::cmp::Ordering::Equal) == (a@ == b@),
        (r == std::cmp::Ordering::Greater) == bytes_lt(b@, a@),
{
    let mut i: usize = 0;
    while i < a.len() && i < b.len() && a[i] == b[i]
        invariant
            i <= a@.len(),
            i <= b@.len(),
            a@.subrange(0, i as int) == b@.subrange(0, i as int),
        decreases a.len() - i,
    {
        assert(a@.subrange(0, i + 1) =~= a@.subrange(0, i as int).push(a@[i as int]));
        assert(b@.subrange(0, i + 1) =~= b@.subrange(0, i as int).push(b@[i as int]));
        i = i + 1;
    }
    proof {
        lemma_bytes_lt_skip(a@, b@, i as int);
        lemma_bytes_lt_skip(b@, a@, i as int);
        lemma_bytes_lt_irreflexive(a@);
        if i == a.len() && i == b.len() {
            assert(a@ =~= a@.subrange(0, i as int));
            assert(b@ =~= b@.subrange(0, i as int));
        } else if i < a.len() && i < b.len() {
            assert(a@.skip(i as int)[0] == a@[i as int]);
            assert(b@.skip(i as int)[0] == b@[i as int]);
        }
        if a@ == b@ {
            assert(!bytes_lt(b@, a@));
        }
    }
    if i < a.len() && i < b.len() {
        if a[i] < b[i] {
            std::cmp::Ordering::Less
        } else {
            std::cmp::Ordering::Greater
        }
    } else if i < a.len() {
        proof {
            assert(a@.len() != b@.len());
        }
        std::cmp::Ordering::Greater
    } else if i < b.len() {
        proof {
            assert(a@.len() != b@.len());
        }
        std::cmp::Ordering::Less
    } else {
        std::cmp::Ordering::Equal
    }
}

/// The aggregator's state: for each discovery origin that has reported, the
/// most recent complete list of servers it reported.
pub struct DnsServers {
    /// One entry per origin, ordered by origin name.
    pub origins: Vec<(String, Vec<DnsServer>)>,
}

impl DnsServers {
    pub open spec fn name_at(&self, i: int) -> Seq<char> {
        self.origins@[i].0@
    }

    pub open spec fn list_at(&self, i: int) -> Seq<DnsServer> {
        self.origins@[i].1@
    }

    /// Origins are strictly ordered by name, so each name occurs once.
    pub open spec fn wf(&self) -> bool {
        forall|i: int, j: int|
            0 <= i < j < self.origins@.len() ==> name_lt(
                #[trigger] self.name_at(i),
                #[trigger] self.name_at(j),
            )
    }

    /// The per-origin lists, in the order of their origins.
    pub open spec fn lists(&self) -> Seq<Seq<DnsServer>> {
        Seq::new(self.origins@.len(), |i: int| self.list_at(i))
    }

    /// All reported servers, origin after origin.
    pub open spec fn flat(&self) -> Seq<DnsServer> {
        self.lists().flatten()
    }

    pub open spec fn has_origin(&self, n: Seq<char>) -> bool {
        exists|i: int| 0 <= i < self.origins@.len() && #[trigger] self.name_at(i) == n
    }

    /// Origin name to the latest list that origin reported.
    pub open spec fn view(&self) -> Map<Seq<char>, Seq<DnsServer>> {
        Map::new(
            |n: Seq<char>| self.has_origin(n),
            |n: Seq<char>|
                self.list_at(
                    choose|i: int| 0 <= i < self.origins@.len() && #[trigger] self.name_at(i) == n,
                ),
        )
    }

    proof fn lemma_names_distinct(&self, i: int, j: int)
        requires
            self.wf(),
            0 <= i < self.origins@.len(),
            0 <= j < self.origins@.len(),
            i != j,
        ensures
            self.name_at(i) != self.name_at(j),
    {
        lemma_bytes_lt_irreflexive(encode_utf8(self.name_at(i)));
        if i < j {
            assert(name_lt(self.name_at(i), self.name_at(j)));
        } else {
            assert(name_lt(self.name_at(j), self.name_at(i)));
        }
    }

    proof fn lemma_view_at(&self, i: int)
        requires
            self.wf(),
            0 <= i < self.origins@.len(),
        ensures
            self.view().contains_key(self.name_at(i)),
            self.view()[self.name_at(i)] == self.list_at(i),
    {
        let n = self.name_at(i);
        assert(self.has_origin(n));
        let j = choose|j: int| 0 <= j < self.origins@.len() && #[trigger] self.name_at(j) == n;
        if j != i {
            self.lemma_names_distinct(i, j);
        }
    }

    /// The origin names, in order.
    pub open spec fn names(&self) -> Seq<Seq<char>> {
        Seq::new(self.origins@.len(), |i: int| self.name_at(i))
    }

    proof fn lemma_insert_at(old: DnsServers, new: DnsServers, i: int)
        requires
            old.wf(),
            0 <= i <= old.origins@.len(),
            new.origins@.len() == old.origins@.len() + 1,
            forall|j: int| 0 <= j < i ==> new.origins@[j] == old.origins@[j],
            forall|j: int| i < j < new.origins@.len() ==> new.origins@[j] == old.origins@[j - 1],
            forall|j: int| 0 <= j < i ==> name_lt(#[trigger] old.name_at(j), new.name_at(i)),
            i < old.origins@.len() ==> name_lt(new.name_at(i), old.name_at(i)),
        ensures
            new.wf(),
            new.view() == old.view().insert(new.name_at(i), new.list_at(i)),
    {
        let k = new.name_at(i);
        assert forall|p: int, q: int| 0 <= p < q < new.origins@.len() implies name_lt(
            #[trigger] new.name_at(p),
            #[trigger] new.name_at(q),
        ) by {
            if q < i {
                assert(old.name_at(p) == new.name_at(p) && old.name_at(q) == new.name_at(q));
            } else if q == i {
                assert(old.name_at(p) == new.name_at(p));
            } else if p < i {
                assert(old.name_at(p) == new.name_at(p) && old.name_at(q - 1) == new.name_at(q));
                assert(name_lt(old.name_at(i), old.name_at(q - 1)) || i == q - 1);
                lemma_name_lt_transitive(old.name_at(p), k, old.name_at(i));
                if i != q - 1 {
                    lemma_name_lt_transitive(old.name_at(p), old.name_at(i), old.name_at(q - 1));
                }
            } else if p == i {
                assert(old.name_at(q - 1) == new.name_at(q));
                if i != q - 1 {
                    assert(name_lt(old.name_at(i), old.name_at(q - 1)));
                    lemma_name_lt_transitive(k, old.name_at(i), old.name_at(q - 1));
                }
            } else {
                assert(old.name_at(p - 1) == new.name_at(p) && old.name_at(q - 1) == new.name_at(q));
            }
        }
        let m = old.view().insert(k, new.list_at(i));
        assert forall|n: Seq<char>| #[trigger] new.view().contains_key(n) == m.contains_key(n) by {
            if new.has_origin(n) {
                let j = choose|j: int| 0 <= j < new.origins@.len() && #[trigger] new.name_at(j) == n;
                if j < i {
                    assert(old.name_at(j) == n);
                } else if j > i {
                    assert(old.name_at(j - 1) == n);
                }
            }
            if old.has_origin(n) {
                let j = choose|j: int| 0 <= j < old.origins@.len() && #[trigger] old.name_at(j) == n;
                if j < i {
                    assert(new.name_at(j) == n);
                } else {
                    assert(new.name_at(j + 1) == n);
                }
            }
            if n == k {
                assert(new.has_origin(n));
            }
        }
        assert forall|n: Seq<char>| #[trigger] new.view().contains_key(n) implies new.view()[n]
            == m[n] by {
            let j = choose|j: int| 0 <= j < new.origins@.len() && #[trigger] new.name_at(j) == n;
            new.lemma_view_at(j);
            if j < i {
                old.lemma_view_at(j);
                assert(old.name_at(j) == n);
                new.lemma_names_distinct(i, j);
            } else if j > i {
                old.lemma_view_at(j - 1);
                assert(old.name_at(j - 1) == n);
                new.lemma_names_distinct(i, j);
            }
        }
        assert(new.view() =~= m);
    }

    proof fn lemma_replace_at(old: DnsServers, new: DnsServers, i: int)
        requires
            old.wf(),
            0 <= i < old.origins@.len(),
            new.origins@.len() == old.origins@.len(),
            forall|j: int| 0 <= j < new.origins@.len() && j != i ==> new.origins@[j] == old.origins@[j],
            new.name_at(i) == old.name_at(i),
        ensures
            new.wf(),
            new.view() == old.view().insert(new.name_at(i), new.list_at(i)),
    {
        assert forall|j: int| 0 <= j < new.origins@.len() implies #[trigger] new.name_at(j)
            == old.name_at(j) by {
            if j != i {
                assert(new.origins@[j] == old.origins@[j]);
            }
        }
        let m = old.view().insert(new.name_at(i), new.list_at(i));
        assert forall|n: Seq<char>| #[trigger] new.view().contains_key(n) == m.contains_key(n) by {
            if new.has_origin(n) {
                let j = choose|j: int| 0 <= j < new.origins@.len() && #[trigger] new.name_at(j) == n;
                assert(old.name_at(j) == n);
            }
            if old.has_origin(n) {
                let j = choose|j: int| 0 <= j < old.origins@.len() && #[trigger] old.name_at(j) == n;
                assert(new.name_at(j) == n);
            }
        }
        assert forall|n: Seq<char>| #[trigger] new.view().contains_key(n) implies new.view()[n]
            == m[n] by {
            let j = choose|j: int| 0 <= j < new.origins@.len() && #[trigger] new.name_at(j) == n;
            new.lemma_view_at(j);
            if j != i {
                old.lemma_view_at(j);
                assert(old.name_at(j) == n);
                assert(new.origins@[j] == old.origins@[j]);
                new.lemma_names_distinct(i, j);
            }
        }
        assert(new.view() =~= m);
    }

    /// No origin has reported yet.
    pub fn new() -> (r: DnsServers)
        ensures
            r.wf(),
            r.view() == Map::<Seq<char>, Seq<DnsServer>>::empty(),
            r.flat() == Seq::<DnsServer>::empty(),
    {
        let r = DnsServers { origins: Vec::new() };
        assert(r.view() =~= Map::<Seq<char>, Seq<DnsServer>>::empty());
        assert(r.lists() =~= Seq::<Seq<DnsServer>>::empty());
        r
    }

    /// Records `servers` as the complete current list of `origin`, replacing
    /// whatever that origin reported before.
    pub fn set_servers(&mut self, origin: String, servers: Vec<DnsServer>)
        requires
            old(self).wf(),
        ensures
            final(self).wf(),
            final(self).view() == old(self).view().insert(origin@, servers@),
    {
        let ghost before = *self;
        let n = self.origins.len();
        let mut i: usize = 0;
        while i < n
            invariant
                n == self.origins.len(),
                i <= n,
                *self == before,
                before == *old(self),
                before.wf(),
                forall|j: int| 0 <= j < i ==> name_lt(#[trigger] self.name_at(j), origin@),
            decreases n - i,
        {
            let c = compare_bytes(origin.as_str().as_bytes(), self.origins[i].0.as_str().as_bytes());
            match c {
                std::cmp::Ordering::Equal => {
                    proof {
                        encode_utf8_decode_utf8(origin@);
                        encode_utf8_decode_utf8(self.name_at(i as int));
                    }
                    self.origins.remove(i);
                    self.origins.insert(i, (origin, servers));
                    proof {
                        assert(self.origins@[i as int] == (origin, servers));
                        DnsServers::lemma_replace_at(before, *self, i as int);
                    }
                    return;
                },
                std::cmp::Ordering::Less => {
                    self.origins.insert(i, (origin, servers));
                    proof {
                        assert(self.origins@[i as int] == (origin, servers));
                        DnsServers::lemma_insert_at(before, *self, i as int);
                    }
                    return;
                },
                std::cmp::Ordering::Greater => {},
            }
            i = i + 1;
        }
        self.origins.push((origin, servers));
        proof {
            DnsServers::lemma_insert_at(before, *self, n as int);
        }
    }

    /// The servers of all origins, origin by origin, each origin's list in
    /// the order reported.
    fn flattened(&self) -> (r: Vec<DnsServer>)
        ensures
            r@ == self.flat(),
    {
        let mut all: Vec<DnsServer> = Vec::new();
        let mut i: usize = 0;
        while i < self.origins.len()
            invariant
                i <= self.origins@.len(),
                all@ == self.lists().take(i as int).flatten(),
            decreases self.origins.len() - i,
        {
            let list = &self.origins[i].1;
            let mut j: usize = 0;
            while j < list.len()
                invariant
                    j <= list@.len(),
                    list@ == self.list_at(i as int),
                    all@ == self.lists().take(i as int).flatten() + list@.take(j as int),
                decreases list.len() - j,
            {
                all.push(list[j]);
                assert(list@.take(j + 1) =~= list@.take(j as int).push(list@[j as int]));
                j = j + 1;
            }
            proof {
                let ls = self.lists();
                lemma_flatten_concat(ls.take(i as int), seq![ls[i as int]]);
                assert(ls.take(i + 1) =~= ls.take(i as int) + seq![ls[i as int]]);
                seq![ls[i as int]].lemma_flatten_one_element();
                assert(list@.take(j as int) =~= list@);
            }
            i = i + 1;
        }
        assert(self.lists().take(self.origins@.len() as int) =~= self.lists());
        all
    }

    /// Compares two servers by source preference alone.
    pub fn ordering(a: &DnsServer, b: &DnsServer) -> (r: std::cmp::Ordering)
        ensures
            r == rank_ordering(*a, *b),
    {
        let ra = source_rank(a);
        let rb = source_rank(b);
        if ra < rb {
            std::cmp::Ordering::Less
        } else if ra > rb {
            std::cmp::Ordering::Greater
        } else {
            std::cmp::Ordering::Equal
        }
    }

    /// The consolidated server list: all origins' servers sorted by source
    /// preference, one server per address, the most preferred report kept.
    pub fn consolidated(&self) -> (r: Vec<DnsServer>)
        ensures
            r@ == consolidate(self.flat()),
            distinct_addresses(r@),
    {
        let all = self.flattened();
        consolidate_servers(&all)
    }
}

/// The consolidated list depends only on which list each origin last
/// reported, not on the order in which the origins reported.
pub proof fn lemma_consolidated_ignores_report_order(a: DnsServers, b: DnsServers)
    requires
        a.wf(),
        b.wf(),
        a.view() == b.view(),
    ensures
        a.flat() == b.flat(),
        consolidate(a.flat()) == consolidate(b.flat()),
{
    let x = a.names();
    let y = b.names();
    assert forall|n: Seq<char>| x.contains(n) == y.contains(n) by {
        if x.contains(n) {
            let i = choose|i: int| 0 <= i < x.len() && x[i] == n;
            a.lemma_view_at(i);
            assert(b.view().contains_key(n));
            let j = choose|j: int| 0 <= j < b.origins@.len() && #[trigger] b.name_at(j) == n;
            assert(y[j] == n);
        }
        if y.contains(n) {
            let i = choose|i: int| 0 <= i < y.len() && y[i] == n;
            b.lemma_view_at(i);
            assert(a.view().contains_key(n));
            let j = choose|j: int| 0 <= j < a.origins@.len() && #[trigger] a.name_at(j) == n;
            assert(x[j] == n);
        }
    }
    assert(strictly_sorted(x));
    assert(strictly_sorted(y));
    lemma_sorted_unique(x, y);
    assert(a.origins@.len() == x.len());
    assert forall|i: int| 0 <= i < a.origins@.len() implies #[trigger] a.list_at(i) == b.list_at(
        i,
    ) by {
        assert(x[i] == y[i]);
        a.lemma_view_at(i);
        b.lemma_view_at(i);
    }
    assert(a.lists() =~= b.lists());
}

} // verus!
