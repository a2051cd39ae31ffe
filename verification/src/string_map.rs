//! `StringMap`: an ordered map from strings to strings, kept as a vector of
//! entries sorted by key with no key twice. It iterates in ascending key
//! order, as a B-tree map does.
use vstd::prelude::*;

use crate::text::chars_of;

verus! {

/// Lexicographic order of character sequences, code point by code point.
/// For UTF-8 strings this is the order of their bytes, which is the order
/// of `String`.
pub open spec fn text_less(a: Seq<char>, b: Seq<char>) -> bool
    decreases a.len(),
{
    if a.len() == 0 {
        b.len() > 0
    } else if b.len() == 0 {
        false
    } else if a[0] != b[0] {
        (a[0] as int) < (b[0] as int)
    } else {
        text_less(a.drop_first(), b.drop_first())
    }
}

/// The value stored under `k` in a list of entries: that of the first entry
/// with key `k`.
pub open spec fn lookup(s: Seq<(Seq<char>, Seq<char>)>, k: Seq<char>) -> Option<Seq<char>>
    decreases s.len(),
{
    if s.len() == 0 {
        None
    } else if s[0].0 == k {
        Some(s[0].1)
    } else {
        lookup(s.drop_first(), k)
    }
}

/// The map that a list of entries stands for.
pub open spec fn entries_map(s: Seq<(Seq<char>, Seq<char>)>) -> Map<Seq<char>, Seq<char>> {
    Map::new(|k: Seq<char>| lookup(s, k) is Some, |k: Seq<char>| lookup(s, k).unwrap())
}

/// Keys strictly ascending: sorted, and no key twice.
pub open spec fn ascending(s: Seq<(Seq<char>, Seq<char>)>) -> bool {
    forall|i: int, j: int| 0 <= i < j < s.len() ==> text_less(#[trigger] s[i].0, #[trigger] s[j].0)
}

/// The result of comparing two strings.
#[derive(Debug, Clone, Copy, PartialEq, Eq)]
pub enum TextOrder {
    Less,
    Equal,
    Greater,
}

/// No sequence comes before itself.
pub proof fn lemma_text_less_irreflexive(a: Seq<char>)
    ensures
        !text_less(a, a),
    decreases a.len(),
{
    if a.len() > 0 {
        lemma_text_less_irreflexive(a.drop_first());
    }
}

/// The order is transitive.
pub proof fn lemma_text_less_transitive(a: Seq<char>, b: Seq<char>, c: Seq<char>)
    requires
        text_less(a, b),
        text_less(b, c),
    ensures
        text_less(a, c),
    decreases a.len(),
{
    if a.len() > 0 && b.len() > 0 && c.len() > 0 {
        if a[0] == b[0] && b[0] == c[0] {
            lemma_text_less_transitive(a.drop_first(), b.drop_first(), c.drop_first());
        }
    }
}

/// The order is total: of two different sequences, one comes first.
pub proof fn lemma_text_less_total(a: Seq<char>, b: Seq<char>)
    ensures
        a == b || text_less(a, b) || text_less(b, a),
    decreases a.len(),
{
    if a.len() == 0 && b.len() == 0 {
        assert(a =~= b);
    } else if a.len() > 0 && b.len() > 0 && a[0] == b[0] {
        lemma_text_less_total(a.drop_first(), b.drop_first());
        if a.drop_first() == b.drop_first() {
            assert(a =~= seq![a[0]] + a.drop_first());
            assert(b =~= seq![b[0]] + b.drop_first());
        }
    }
}

/// Two sequences with the same first `i` characters compare as what follows.
proof fn lemma_text_less_common_prefix(a: Seq<char>, b: Seq<char>, i: int)
    requires
        0 <= i <= a.len(),
        i <= b.len(),
        a.take(i) == b.take(i),
    ensures
        text_less(a, b) == text_less(a.skip(i), b.skip(i)),
    decreases i,
{
    if i > 0 {
        assert(a[0] == a.take(i)[0]);
        assert(b[0] == b.take(i)[0]);
        assert(a.drop_first().take(i - 1) =~= a.take(i).drop_first());
        assert(b.drop_first().take(i - 1) =~= b.take(i).drop_first());
        lemma_text_less_common_prefix(a.drop_first(), b.drop_first(), i - 1);
        assert(a.drop_first().skip(i - 1) =~= a.skip(i));
        assert(b.drop_first().skip(i - 1) =~= b.skip(i));
    } else {
        assert(a.skip(0) =~= a);
        assert(b.skip(0) =~= b);
    }
}

/// Compares two strings in the order of `text_less`.
pub fn compare_text(a: &str, b: &str) -> (r: TextOrder)
    ensures
        r is Less <==> text_less(a@, b@),
        r is Equal <==> a@ == b@,
        r is Greater <==> text_less(b@, a@),
{
    let ca = chars_of(a);
    let cb = chars_of(b);
    let la = ca.len();
    let lb = cb.len();
    let mut i: usize = 0;
    while i < la && i < lb
        invariant
            ca@ == a@,
            cb@ == b@,
            la == a@.len(),
            lb == b@.len(),
            i <= la,
            i <= lb,
            a@.take(i as int) == b@.take(i as int),
        decreases la - i,
    {
        if ca[i] != cb[i] {
            proof {
                lemma_text_less_common_prefix(a@, b@, i as int);
                lemma_text_less_common_prefix(b@, a@, i as int);
                assert(a@.skip(i as int)[0] == a@[i as int]);
                assert(b@.skip(i as int)[0] == b@[i as int]);
            }
            if ca[i] < cb[i] {
                return TextOrder::Less;
            } else {
                return TextOrder::Greater;
            }
        }
        assert(a@.take(i + 1) =~= a@.take(i as int).push(a@[i as int]));
        assert(b@.take(i + 1) =~= b@.take(i as int).push(b@[i as int]));
        i = i + 1;
    }
    proof {
        lemma_text_less_common_prefix(a@, b@, i as int);
        lemma_text_less_common_prefix(b@, a@, i as int);
    }
    if la == lb {
        assert(a@ =~= a@.take(i as int));
        assert(b@ =~= b@.take(i as int));
        proof {
            lemma_text_less_irreflexive(a@);
        }
        TextOrder::Equal
    } else if la < lb {
        assert(a@.skip(i as int).len() == 0);
        TextOrder::Less
    } else {
        assert(b@.skip(i as int).len() == 0);
        TextOrder::Greater
    }
}

/// Looking up in two lists one after the other finds the first list's
/// entry when it has one.
pub proof fn lemma_lookup_concat(a: Seq<(Seq<char>, Seq<char>)>, b: Seq<(Seq<char>, Seq<char>)>, k: Seq<char>)
    ensures
        lookup(a + b, k) == if lookup(a, k) is Some {
            lookup(a, k)
        } else {
            lookup(b, k)
        },
    decreases a.len(),
{
    if a.len() > 0 {
        assert((a + b).drop_first() =~= a.drop_first() + b);
        assert((a + b)[0] == a[0]);
        lemma_lookup_concat(a.drop_first(), b, k);
    } else {
        assert(a + b =~= b);
    }
}

proof fn lemma_lookup_absent(a: Seq<(Seq<char>, Seq<char>)>, k: Seq<char>)
    requires
        forall|i: int| 0 <= i < a.len() ==> (#[trigger] a[i]).0 != k,
    ensures
        lookup(a, k) is None,
    decreases a.len(),
{
    if a.len() > 0 {
        assert(a[0].0 != k);
        assert forall|i: int| 0 <= i < a.drop_first().len() implies (#[trigger] a.drop_first()[
            i
        ]).0 != k by {
            assert(a.drop_first()[i] == a[i + 1]);
        }
        lemma_lookup_absent(a.drop_first(), k);
    }
}

/// A map from strings to strings, iterated in ascending key order.
#[derive(Debug)]
pub struct StringMap {
    entries: Vec<(String, String)>,
}

/// The character view of one entry.
pub open spec fn entry_view(e: (String, String)) -> (Seq<char>, Seq<char>) {
    (e.0@, e.1@)
}

impl StringMap {
    #[verifier::type_invariant]
    spec fn keys_ascending(self) -> bool {
        ascending(self.entries@.map_values(|e: (String, String)| entry_view(e)))
    }

    /// The entries, in ascending key order.
    pub closed spec fn pairs(&self) -> Seq<(Seq<char>, Seq<char>)> {
        self.entries@.map_values(|e: (String, String)| entry_view(e))
    }

    /// An empty map.
    pub fn new() -> (r: Self)
        ensures
            r@ == Map::<Seq<char>, Seq<char>>::empty(),
            r.pairs() == Seq::<(Seq<char>, Seq<char>)>::empty(),
    {
        let r = StringMap { entries: Vec::new() };
        assert(r.pairs() =~= Seq::<(Seq<char>, Seq<char>)>::empty());
        assert(r@ =~= Map::<Seq<char>, Seq<char>>::empty());
        r
    }

    /// The number of entries.
    pub fn len(&self) -> (r: usize)
        ensures
            r == self.pairs().len(),
    {
        self.entries.len()
    }

    /// The entries, in ascending key order, with no key twice.
    pub fn entries(&self) -> (r: &Vec<(String, String)>)
        ensures
            r@.map_values(|e: (String, String)| entry_view(e)) == self.pairs(),
            ascending(self.pairs()),
            entries_map(self.pairs()) == self@,
    {
        proof {
            use_type_invariant(self);
        }
        &self.entries
    }

    /// Stores `value` under `key`, replacing any value stored there before.
    pub fn insert(&mut self, key: String, value: String)
        ensures
            final(self)@ == old(self)@.insert(key@, value@),
    {
        proof {
            use_type_invariant(&*self);
        }
        let ghost old_pairs = self.pairs();
        let n = self.entries.len();
        let mut pos: usize = 0;
        let mut found = false;
        while pos < n
            invariant_except_break
                pos <= n,
                n == self.entries@.len(),
                old_pairs == self.pairs(),
                !found,
                forall|i: int| 0 <= i < pos ==> text_less(#[trigger] old_pairs[i].0, key@),
            ensures
                pos <= n,
                forall|i: int| 0 <= i < pos ==> text_less(#[trigger] old_pairs[i].0, key@),
                found ==> pos < n && old_pairs[pos as int].0 == key@,
                !found && pos < n ==> text_less(key@, old_pairs[pos as int].0),
            decreases n - pos,
        {
            let ord = compare_text(self.entries[pos].0.as_str(), key.as_str());
            assert(old_pairs[pos as int] == entry_view(self.entries@[pos as int]));
            match ord {
                TextOrder::Less => {
                    pos = pos + 1;
                },
                TextOrder::Equal => {
                    found = true;
                    break ;
                },
                TextOrder::Greater => {
                    break ;
                },
            }
        }
        let mut list: Vec<(String, String)> = Vec::new();
        std::mem::swap(&mut list, &mut self.entries);
        assert(list@.map_values(|e: (String, String)| entry_view(e)) == old_pairs);
        let mut tail = list.split_off(pos);
        if found {
            tail.remove(0);
        }
        let ghost prefix = list@;
        let ghost rest = tail@;
        list.push((key, value));
        list.append(&mut tail);
        let ghost new_pairs = list@.map_values(|e: (String, String)| entry_view(e));
        let ghost p = prefix.map_values(|e: (String, String)| entry_view(e));
        let ghost r = rest.map_values(|e: (String, String)| entry_view(e));
        let ghost kv = seq![(key@, value@)];
        let ghost skip: int = if found { 1 } else { 0 };
        proof {
            assert(p =~= old_pairs.take(pos as int));
            assert(r =~= old_pairs.skip(pos + skip));
            assert(new_pairs =~= p + kv + r);
            lemma_insert_keeps_order(
                old_pairs,
                pos as int,
                skip,
                found,
                key@,
                value@,
                p,
                r,
                new_pairs,
            );
        }
        self.entries = list;
        assert(self.pairs() == new_pairs);
    }
}

proof fn lemma_insert_keeps_order(
    old_pairs: Seq<(Seq<char>, Seq<char>)>,
    pos: int,
    skip: int,
    found: bool,
    key: Seq<char>,
    value: Seq<char>,
    p: Seq<(Seq<char>, Seq<char>)>,
    r: Seq<(Seq<char>, Seq<char>)>,
    new_pairs: Seq<(Seq<char>, Seq<char>)>,
)
    requires
        ascending(old_pairs),
        0 <= pos <= old_pairs.len(),
        skip == if found { 1int } else { 0int },
        found ==> pos < old_pairs.len() && old_pairs[pos].0 == key,
        !found && pos < old_pairs.len() ==> text_less(key, old_pairs[pos].0),
        forall|i: int| 0 <= i < pos ==> text_less(#[trigger] old_pairs[i].0, key),
        p == old_pairs.take(pos),
        r == old_pairs.skip(pos + skip),
        new_pairs == p + seq![(key, value)] + r,
    ensures
        ascending(new_pairs),
        entries_map(new_pairs) == entries_map(old_pairs).insert(key, value),
{
    let kv = seq![(key, value)];
    assert forall|i: int, j: int|
        0 <= i < j < new_pairs.len() implies text_less(
        #[trigger] new_pairs[i].0,
        #[trigger] new_pairs[j].0,
    ) by {
        if j < pos {
            assert(new_pairs[i] == old_pairs[i]);
            assert(new_pairs[j] == old_pairs[j]);
        } else if j == pos {
            assert(new_pairs[i] == old_pairs[i]);
        } else {
            assert(new_pairs[j] == old_pairs[j - 1 + skip]);
            let jj = j - 1 + skip;
            if !found {
                assert(text_less(key, old_pairs[pos].0));
                if jj > pos {
                    lemma_text_less_transitive(key, old_pairs[pos].0, old_pairs[jj].0);
                }
            } else {
                assert(text_less(old_pairs[pos].0, old_pairs[jj].0));
            }
            if i < pos {
                assert(new_pairs[i] == old_pairs[i]);
                lemma_text_less_transitive(old_pairs[i].0, key, old_pairs[jj].0);
            } else if i > pos {
                assert(new_pairs[i] == old_pairs[i - 1 + skip]);
            }
        }
    }
    let old_map = entries_map(old_pairs);
    let new_map = entries_map(new_pairs);
    let middle = if found {
        seq![old_pairs[pos]]
    } else {
        Seq::<(Seq<char>, Seq<char>)>::empty()
    };
    assert(old_pairs =~= p + middle + r);
    assert forall|q: Seq<char>| #[trigger] lookup(new_pairs, q) == if q == key {
        Some(value)
    } else {
        lookup(old_pairs, q)
    } by {
        lemma_lookup_concat(p + kv, r, q);
        lemma_lookup_concat(p, kv, q);
        lemma_lookup_concat(p + middle, r, q);
        lemma_lookup_concat(p, middle, q);
        assert forall|i: int| 0 <= i < p.len() implies (#[trigger] p[i]).0 != key by {
            lemma_text_less_irreflexive(key);
        }
        lemma_lookup_absent(p, key);
        assert(kv.drop_first().len() == 0);
        assert(lookup(kv.drop_first(), q) is None);
        assert(lookup(kv, q) == if kv[0].0 == q {
            Some(value)
        } else {
            None::<Seq<char>>
        });
        if found {
            assert(middle.drop_first().len() == 0);
            assert(lookup(middle.drop_first(), q) is None);
            assert(middle[0].0 == key);
        } else {
            assert(lookup(middle, q) is None);
        }
    }
    assert(new_map =~= old_map.insert(key, value));
}

impl Clone for StringMap {
    /// A copy with the same entries.
    fn clone(&self) -> (r: Self)
        ensures
            r.pairs() == self.pairs(),
    {
        proof {
            use_type_invariant(self);
        }
        let ghost all = self.pairs();
        let mut out: Vec<(String, String)> = Vec::new();
        let mut i: usize = 0;
        while i < self.entries.len()
            invariant
                i <= self.entries.len(),
                all == self.pairs(),
                ascending(all),
                out@.map_values(|e: (String, String)| entry_view(e)) == all.take(i as int),
            decreases self.entries.len() - i,
        {
            let (k, v) = &self.entries[i];
            assert(all[i as int] == (k@, v@));
            let kc = k.clone();
            let vc = v.clone();
            assert(kc@ == k@ && vc@ == v@);
            let ghost before = out@;
            out.push((kc, vc));
            assert(out@ == before.push((kc, vc)));
            assert(out@.map_values(|e: (String, String)| entry_view(e)) =~= before.map_values(
                |e: (String, String)| entry_view(e),
            ).push(entry_view((kc, vc))));
            assert(out@.map_values(|e: (String, String)| entry_view(e)) =~= all.take(i + 1));
            i = i + 1;
        }
        assert(all.take(self.entries.len() as int) =~= all);
        StringMap { entries: out }
    }
}

impl View for StringMap {
    type V = Map<Seq<char>, Seq<char>>;

    /// The map the entries stand for.
    open spec fn view(&self) -> Map<Seq<char>, Seq<char>> {
        entries_map(self.pairs())
    }
}

proof fn lemma_lookup_found(s: Seq<(Seq<char>, Seq<char>)>, k: Seq<char>, i: int)
    requires
        ascending(s),
        0 <= i < s.len(),
        s[i].0 == k,
    ensures
        lookup(s, k) == Some(s[i].1),
    decreases s.len(),
{
    if i > 0 {
        assert(text_less(s[0].0, s[i].0));
        lemma_text_less_irreflexive(k);
        assert(s.drop_first()[i - 1] == s[i]);
        assert(ascending(s.drop_first())) by {
            assert forall|x: int, y: int| 0 <= x < y < s.drop_first().len() implies text_less(
                #[trigger] s.drop_first()[x].0,
                #[trigger] s.drop_first()[y].0,
            ) by {
                assert(s.drop_first()[x] == s[x + 1]);
                assert(s.drop_first()[y] == s[y + 1]);
            }
        }
        lemma_lookup_found(s.drop_first(), k, i - 1);
    }
}

proof fn lemma_lookup_some_has_index(s: Seq<(Seq<char>, Seq<char>)>, k: Seq<char>) -> (i: int)
    requires
        lookup(s, k) is Some,
    ensures
        0 <= i < s.len(),
        s[i].0 == k,
    decreases s.len(),
{
    if s[0].0 == k {
        0
    } else {
        let j = lemma_lookup_some_has_index(s.drop_first(), k);
        assert(s.drop_first()[j] == s[j + 1]);
        j + 1
    }
}

proof fn lemma_same_map_same_lookups(
    a: Seq<(Seq<char>, Seq<char>)>,
    b: Seq<(Seq<char>, Seq<char>)>,
    k: Seq<char>,
)
    requires
        entries_map(a) == entries_map(b),
    ensures
        lookup(a, k) == lookup(b, k),
{
    assert(entries_map(a).dom().contains(k) == (lookup(a, k) is Some));
    assert(entries_map(b).dom().contains(k) == (lookup(b, k) is Some));
    if lookup(a, k) is Some {
        assert(entries_map(a)[k] == lookup(a, k).unwrap());
        assert(entries_map(b)[k] == lookup(b, k).unwrap());
    }
}

proof fn lemma_ascending_tail(s: Seq<(Seq<char>, Seq<char>)>)
    requires
        ascending(s),
        s.len() > 0,
    ensures
        ascending(s.drop_first()),
        forall|q: Seq<char>| q != s[0].0 ==> #[trigger] lookup(s.drop_first(), q) == lookup(s, q),
        lookup(s.drop_first(), s[0].0) is None,
{
    assert forall|x: int, y: int| 0 <= x < y < s.drop_first().len() implies text_less(
        #[trigger] s.drop_first()[x].0,
        #[trigger] s.drop_first()[y].0,
    ) by {
        assert(s.drop_first()[x] == s[x + 1]);
        assert(s.drop_first()[y] == s[y + 1]);
    }
    if lookup(s.drop_first(), s[0].0) is Some {
        let i = lemma_lookup_some_has_index(s.drop_first(), s[0].0);
        assert(s.drop_first()[i] == s[i + 1]);
        assert(text_less(s[0].0, s[i + 1].0));
        lemma_text_less_irreflexive(s[0].0);
    }
}

/// Law: the entries of a map come out in one order only: two ascending
/// entry lists that stand for the same map are the same list, so iteration
/// order is fixed by the contents (ascending key order, as a B-tree map
/// iterates).
pub proof fn lemma_ascending_entries_determined(
    a: Seq<(Seq<char>, Seq<char>)>,
    b: Seq<(Seq<char>, Seq<char>)>,
)
    requires
        ascending(a),
        ascending(b),
        entries_map(a) == entries_map(b),
    ensures
        a == b,
    decreases a.len(),
{
    if a.len() == 0 && b.len() == 0 {
        assert(a =~= b);
    } else if a.len() == 0 {
        lemma_lookup_found(b, b[0].0, 0);
        lemma_same_map_same_lookups(a, b, b[0].0);
    } else if b.len() == 0 {
        lemma_lookup_found(a, a[0].0, 0);
        lemma_same_map_same_lookups(a, b, a[0].0);
    } else {
        let ka = a[0].0;
        let kb = b[0].0;
        lemma_lookup_found(a, ka, 0);
        lemma_lookup_found(b, kb, 0);
        lemma_same_map_same_lookups(a, b, ka);
        lemma_same_map_same_lookups(a, b, kb);
        let j = lemma_lookup_some_has_index(a, kb);
        let l = lemma_lookup_some_has_index(b, ka);
        if j > 0 && l > 0 {
            assert(text_less(ka, a[j].0));
            assert(text_less(kb, b[l].0));
            lemma_text_less_transitive(ka, kb, ka);
            lemma_text_less_irreflexive(ka);
        }
        if j == 0 {
            assert(ka == kb);
        } else {
            assert(l == 0);
            assert(kb == ka);
        }
        assert(a[0] == b[0]);
        lemma_ascending_tail(a);
        lemma_ascending_tail(b);
        let ta = a.drop_first();
        let tb = b.drop_first();
        assert forall|q: Seq<char>| #[trigger] lookup(ta, q) == lookup(tb, q) by {
            lemma_same_map_same_lookups(a, b, q);
        }
        assert(entries_map(ta) =~= entries_map(tb));
        lemma_ascending_entries_determined(ta, tb);
        assert(a =~= seq![a[0]] + ta);
        assert(b =~= seq![b[0]] + tb);
    }
}

} // verus!
