use vstd::prelude::*;

verus! {

/// A domain written without its one trailing dot, if it has one.
pub open spec fn normalize(d: Seq<char>) -> Seq<char> {
    if d.len() > 0 && d.last() == '.' {
        d.drop_last()
    } else {
        d
    }
}

/// `k` is `d` itself or a suffix of `d` that starts right after a dot.
pub open spec fn covers(k: Seq<char>, d: Seq<char>) -> bool {
    k.len() > 0 && k.len() <= d.len() && d.subrange(d.len() - k.len(), d.len() as int) == k && (
    k.len() == d.len() || d[d.len() - k.len() - 1] == '.')
}

/// The rules as a map from key to tag: a later entry for a key replaces an earlier one.
pub open spec fn entries_map(s: Seq<(Seq<char>, u32)>) -> Map<Seq<char>, u32>
    decreases s.len(),
{
    if s.len() == 0 {
        Map::empty()
    } else {
        entries_map(s.drop_last()).insert(s.last().0, s.last().1)
    }
}

/// The tag of the longest key of `m` that covers `d`, trying the suffixes of `d`
/// that begin at position `i` or later.
pub open spec fn lookup_from(m: Map<Seq<char>, u32>, d: Seq<char>, i: int) -> Option<u32>
    decreases d.len() - i,
{
    if i < 0 || i >= d.len() {
        None
    } else if (i == 0 || d[i - 1] == '.') && m.contains_key(d.subrange(i, d.len() as int)) {
        Some(m[d.subrange(i, d.len() as int)])
    } else {
        lookup_from(m, d, i + 1)
    }
}

/// The tag routed to `domain` by the rules `m`.
pub open spec fn lookup(m: Map<Seq<char>, u32>, domain: Seq<char>) -> Option<u32> {
    lookup_from(m, normalize(domain), 0)
}

/// The non-empty lines of `t` from position `i` on, the current line having begun at `start`.
pub open spec fn lines_from(t: Seq<char>, start: int, i: int) -> Seq<Seq<char>>
    decreases t.len() - i,
{
    if i >= t.len() || i < start {
        if start < t.len() && start >= 0 {
            seq![t.subrange(start, t.len() as int)]
        } else {
            seq![]
        }
    } else if t[i] == '\n' {
        let rest = lines_from(t, i + 1, i + 1);
        if i > start {
            seq![t.subrange(start, i)] + rest
        } else {
            rest
        }
    } else {
        lines_from(t, start, i + 1)
    }
}

/// The non-empty lines of a text, in order.
pub open spec fn lines(t: Seq<char>) -> Seq<Seq<char>> {
    lines_from(t, 0, 0)
}

/// `m` with each of `ls`, normalized, mapped to `tag`.
pub open spec fn insert_all(m: Map<Seq<char>, u32>, ls: Seq<Seq<char>>, tag: u32) -> Map<
    Seq<char>,
    u32,
>
    decreases ls.len(),
{
    if ls.len() == 0 {
        m
    } else {
        insert_all(m, ls.drop_last(), tag).insert(normalize(ls.last()), tag)
    }
}

proof fn lemma_lookup_from_sound(m: Map<Seq<char>, u32>, d: Seq<char>, i: int)
    requires
        0 <= i <= d.len(),
    ensures
        lookup_from(m, d, i) is None ==> forall|k: Seq<char>|
            #![trigger m.contains_key(k), covers(k, d)]
            m.contains_key(k) && covers(k, d) ==> k.len() > d.len() - i,
        lookup_from(m, d, i) is Some ==> exists|k: Seq<char>|
            #![trigger m.contains_key(k), covers(k, d)]
            m.contains_key(k) && covers(k, d) && k.len() <= d.len() - i && m[k] == lookup_from(
                m,
                d,
                i,
            )->0 && forall|k2: Seq<char>|
                #![trigger m.contains_key(k2), covers(k2, d)]
                m.contains_key(k2) && covers(k2, d) && k2.len() <= d.len() - i ==> k2.len()
                    <= k.len(),
    decreases d.len() - i,
{
    if i < d.len() {
        let s = d.subrange(i, d.len() as int);
        if (i == 0 || d[i - 1] == '.') && m.contains_key(s) {
            assert(covers(s, d)) by {
                assert(d.subrange(d.len() - s.len(), d.len() as int) =~= s);
            }
        } else {
            lemma_lookup_from_sound(m, d, i + 1);
            assert forall|k: Seq<char>|
                #![trigger m.contains_key(k), covers(k, d)]
                m.contains_key(k) && covers(k, d) && k.len() == d.len() - i implies false by {
                assert(k =~= s);
            }
        }
    }
}

/// A domain that has just been routed to a tag is matched by that tag, whatever
/// rules stood before.
pub proof fn lemma_inserted_domain_matches(m: Map<Seq<char>, u32>, domain: Seq<char>, tag: u32)
    requires
        normalize(domain).len() > 0,
    ensures
        lookup(m.insert(normalize(domain), tag), domain) == Some(tag),
{
    let d = normalize(domain);
    assert(d.subrange(0, d.len() as int) =~= d);
}

/// A match always comes from a rule whose key is the domain itself or one of its
/// suffixes beginning after a dot, and no longer such key has a rule; where no
/// such key has a rule, there is no match.
pub proof fn lemma_match_is_most_specific(m: Map<Seq<char>, u32>, domain: Seq<char>)
    ensures
        lookup(m, domain) is None ==> forall|k: Seq<char>|
            #![trigger m.contains_key(k), covers(k, normalize(domain))]
            m.contains_key(k) ==> !covers(k, normalize(domain)),
        lookup(m, domain) is Some ==> exists|k: Seq<char>|
            #![trigger m.contains_key(k), covers(k, normalize(domain))]
            m.contains_key(k) && covers(k, normalize(domain)) && m[k] == lookup(m, domain)->0
                && forall|k2: Seq<char>|
                #![trigger m.contains_key(k2), covers(k2, normalize(domain))]
                m.contains_key(k2) && covers(k2, normalize(domain)) ==> k2.len() <= k.len(),
{
    lemma_lookup_from_sound(m, normalize(domain), 0);
}

/// One routing rule: a domain key and its tag.
pub struct Entry {
    pub key: Vec<char>,
    pub tag: u32,
}

/// Maps domain names to routing tags by their most specific configured suffix.
pub struct Matcher {
    entries: Vec<Entry>,
}

impl Matcher {
    pub closed spec fn entries_seq(&self) -> Seq<(Seq<char>, u32)> {
        self.entries@.map_values(|e: Entry| (e.key@, e.tag))
    }

    /// The rules, key to tag.
    pub closed spec fn view(&self) -> Map<Seq<char>, u32> {
        entries_map(self.entries_seq())
    }

    /// A matcher with no rules.
    pub fn new() -> (r: Self)
        ensures
            r.view() == Map::<Seq<char>, u32>::empty(),
    {
        Matcher { entries: Vec::new() }
    }

    /// Routes `domain` (and every domain below it) to `tag`.
    pub fn insert(&mut self, domain: &str, tag: u32)
        ensures
            final(self).view() == old(self).view().insert(normalize(domain@), tag),
    {
        let key = normalized_chars(domain);
        self.push_key(key, tag);
    }

    fn push_key(&mut self, key: Vec<char>, tag: u32)
        ensures
            final(self).view() == old(self).view().insert(key@, tag),
    {
        let ghost before = self.entries_seq();
        self.entries.push(Entry { key, tag });
        proof {
            assert(self.entries_seq().drop_last() =~= before);
        }
    }

    /// Routes every non-empty line of `text` to `tag`.
    pub fn insert_bulk(&mut self, text: &str, tag: u32)
        ensures
            final(self).view() == insert_all(old(self).view(), lines(text@), tag),
    {
        let ls = split_lines(text);
        let ghost old_view = self.view();
        let ghost lseq = lines(text@);
        let mut i: usize = 0;
        while i < ls.len()
            invariant
                i <= ls.len(),
                ls@.len() == lseq.len(),
                forall|j: int| 0 <= j < ls@.len() ==> #[trigger] ls@[j]@ == lseq[j],
                self.view() == insert_all(old_view, lseq.subrange(0, i as int), tag),
            decreases ls.len() - i,
        {
            let mut key = ls[i].clone();
            let n = key.len();
            if n > 0 && key[n - 1] == '.' {
                key.pop();
            }
            proof {
                assert(key@ == normalize(lseq[i as int]));
                assert(lseq.subrange(0, i + 1).drop_last() =~= lseq.subrange(0, i as int));
            }
            self.push_key(key, tag);
            i = i + 1;
        }
        proof {
            assert(lseq.subrange(0, ls@.len() as int) =~= lseq);
        }
    }

    /// The tag of the entry for exactly `d[start..]`, if there is one.
    fn find(&self, d: &Vec<char>, start: usize) -> (r: Option<u32>)
        requires
            start <= d.len(),
        ensures
            r == (if self.view().contains_key(d@.subrange(start as int, d@.len() as int)) {
                Some(self.view()[d@.subrange(start as int, d@.len() as int)])
            } else {
                None
            }),
    {
        let ghost s = self.entries_seq();
        let ghost k = d@.subrange(start as int, d@.len() as int);
        let mut i: usize = self.entries.len();
        proof {
            assert(s.subrange(0, i as int) =~= s);
        }
        while i > 0
            invariant
                start <= d@.len(),
                k == d@.subrange(start as int, d@.len() as int),
                i <= self.entries@.len(),
                s == self.entries_seq(),
                entries_map(s).contains_key(k) == entries_map(s.subrange(0, i as int)).contains_key(
                    k,
                ),
                entries_map(s).contains_key(k) ==> entries_map(s)[k] == entries_map(
                    s.subrange(0, i as int),
                )[k],
            decreases i,
        {
            let e = &self.entries[i - 1];
            proof {
                assert(s.subrange(0, i as int).drop_last() =~= s.subrange(0, i - 1));
                assert(s[i - 1] == (e.key@, e.tag));
            }
            if suffix_eq(&e.key, d, start) {
                return Some(e.tag);
            }
            i = i - 1;
        }
        proof {
            assert(s.subrange(0, 0) =~= Seq::<(Seq<char>, u32)>::empty());
        }
        None
    }

    /// The tag of the most specific rule that covers `domain`, or `None` when
    /// no rule does.
    pub fn matches(&self, domain: &str) -> (r: Option<u32>)
        ensures
            r == lookup(self.view(), domain@),
    {
        let d = normalized_chars(domain);
        let n = d.len();
        let mut i: usize = 0;
        while i < n
            invariant
                n == d@.len(),
                d@ == normalize(domain@),
                i <= n,
                lookup_from(self.view(), d@, i as int) == lookup(self.view(), domain@),
            decreases n - i,
        {
            if i == 0 || d[i - 1] == '.' {
                let found = self.find(&d, i);
                if found.is_some() {
                    return found;
                }
            }
            i = i + 1;
        }
        None
    }
}

/// The characters of `s`.
fn chars_of(s: &str) -> (r: Vec<char>)
    ensures
        r@ == s@,
{
    let n = s.unicode_len();
    let mut r: Vec<char> = Vec::new();
    let mut i: usize = 0;
    while i < n
        invariant
            n == s@.len(),
            i <= n,
            r@ == s@.subrange(0, i as int),
        decreases n - i,
    {
        r.push(s.get_char(i));
        i = i + 1;
        proof {
            assert(r@ =~= s@.subrange(0, i as int));
        }
    }
    proof {
        assert(r@ =~= s@);
    }
    r
}

/// The characters of `s` without one trailing dot.
fn normalized_chars(s: &str) -> (r: Vec<char>)
    ensures
        r@ == normalize(s@),
{
    let mut r = chars_of(s);
    let n = r.len();
    if n > 0 && r[n - 1] == '.' {
        r.pop();
    }
    r
}

/// Whether `key` is exactly `d[start..]`.
fn suffix_eq(key: &Vec<char>, d: &Vec<char>, start: usize) -> (r: bool)
    requires
        start <= d.len(),
    ensures
        r == (key@ == d@.subrange(start as int, d@.len() as int)),
{
    if key.len() != d.len() - start {
        return false;
    }
    let n = d.len();
    let mut j: usize = 0;
    while j < key.len()
        invariant
            n == d@.len(),
            start <= d@.len(),
            key@.len() == d@.len() - start,
            j <= key@.len(),
            forall|x: int| 0 <= x < j ==> key@[x] == d@[start + x],
        decreases key.len() - j,
    {
        let p: usize = start + j;
        if key[j] != d[p] {
            return false;
        }
        j = j + 1;
    }
    proof {
        assert(key@ =~= d@.subrange(start as int, d@.len() as int));
    }
    true
}

/// The non-empty lines of `t`, in order.
fn split_lines(t: &str) -> (r: Vec<Vec<char>>)
    ensures
        r@.len() == lines(t@).len(),
        forall|j: int| 0 <= j < r@.len() ==> #[trigger] r@[j]@ == lines(t@)[j],
{
    let c = chars_of(t);
    let n = c.len();
    let ghost all = lines(t@);
    let mut r: Vec<Vec<char>> = Vec::new();
    let mut cur: Vec<char> = Vec::new();
    let mut start: usize = 0;
    let mut i: usize = 0;
    while i < n
        invariant
            c@ == t@,
            n == c@.len(),
            start <= i <= n,
            cur@ == c@.subrange(start as int, i as int),
            r@.map_values(|v: Vec<char>| v@) + lines_from(c@, start as int, i as int) == all,
        decreases n - i,
    {
        let ghost prev = r@.map_values(|v: Vec<char>| v@);
        if c[i] == '\n' {
            if i > start {
                r.push(cur);
                proof {
                    assert(r@.map_values(|v: Vec<char>| v@) =~= prev + seq![
                        c@.subrange(start as int, i as int),
                    ]);
                    assert(lines_from(c@, start as int, i as int) == seq![
                        c@.subrange(start as int, i as int),
                    ] + lines_from(c@, i + 1, i + 1));
                    vstd::seq_lib::lemma_concat_associative(
                        prev,
                        seq![c@.subrange(start as int, i as int)],
                        lines_from(c@, i + 1, i + 1),
                    );
                }
            }
            cur = Vec::new();
            i = i + 1;
            start = i;
            proof {
                assert(cur@ =~= c@.subrange(start as int, i as int));
            }
        } else {
            cur.push(c[i]);
            i = i + 1;
            proof {
                assert(cur@ =~= c@.subrange(start as int, i as int));
            }
        }
    }
    let ghost prev = r@.map_values(|v: Vec<char>| v@);
    if start < n {
        r.push(cur);
        proof {
            assert(r@.map_values(|v: Vec<char>| v@) =~= prev + seq![
                c@.subrange(start as int, n as int),
            ]);
        }
    } else {
        proof {
            assert(prev + lines_from(c@, start as int, i as int) =~= prev);
        }
    }
    proof {
        let fin = r@.map_values(|v: Vec<char>| v@);
        assert(fin =~= all);
        assert forall|j: int| 0 <= j < r@.len() implies #[trigger] r@[j]@ == all[j] by {
            assert(fin[j] == r@[j]@);
        }
    }
    r
}

} // verus!
