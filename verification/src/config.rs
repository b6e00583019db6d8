//! The runtime configuration store.
//!
//! A single source of truth for runtime-tunable settings: a mapping from
//! identifier keys to string-encoded scalar values. Setting a key inserts
//! or overwrites its entry; the typed view (`chunk_duration`) parses the
//! stored string as an unsigned integer and falls back to a documented
//! default when the entry is absent or unparsable, so reading it never
//! fails. Callers share one store under an exclusive lock owned by the
//! embedding layer; each operation below is one critical section.

use vstd::prelude::*;

verus! {

/// The typed view of the store handed to the frontend.
#[derive(PartialEq, Eq, Structural, Clone, Copy, Debug)]
pub struct Config {
    /// Length of one recorded chunk, in seconds.
    pub chunk_duration: u32,
}

/// The duration used when no valid `chunk_duration` entry is stored.
pub const DEFAULT_CHUNK_DURATION: u32 = 60;

/// Whether `c` is a decimal digit.
pub open spec fn is_decimal_digit(c: char) -> bool {
    48 <= c as int && c as int <= 57
}

/// The numeric value of the digit `c`.
pub open spec fn digit_value(c: char) -> int {
    c as int - 48
}

/// Whether every character of `s` is a decimal digit.
pub open spec fn all_digits(s: Seq<char>) -> bool {
    forall|i: int| 0 <= i < s.len() ==> is_decimal_digit(#[trigger] s[i])
}

/// The number denoted by the digit string `s`, most significant first.
pub open spec fn digits_value(s: Seq<char>) -> int
    decreases s.len(),
{
    if s.len() == 0 {
        0
    } else {
        digits_value(s.drop_last()) * 10 + digit_value(s.last())
    }
}

/// What parsing `s` as a `u32` yields: an optional leading `+`, then one
/// or more decimal digits whose value fits in a `u32`; anything else is
/// rejected.
pub open spec fn spec_parse_u32(s: Seq<char>) -> Option<u32> {
    let d = if s.len() > 0 && s[0] == '+' {
        s.subrange(1, s.len() as int)
    } else {
        s
    };
    if d.len() > 0 && all_digits(d) && digits_value(d) <= u32::MAX {
        Some(digits_value(d) as u32)
    } else {
        None
    }
}

proof fn lemma_digits_value_nonneg(s: Seq<char>)
    requires
        all_digits(s),
    ensures
        digits_value(s) >= 0,
    decreases s.len(),
{
    if s.len() > 0 {
        assert(all_digits(s.drop_last()));
        lemma_digits_value_nonneg(s.drop_last());
    }
}

proof fn lemma_digits_value_prefix(s: Seq<char>, m: int)
    requires
        all_digits(s),
        0 <= m <= s.len(),
    ensures
        digits_value(s.subrange(0, m)) <= digits_value(s),
    decreases s.len() - m,
{
    if m == s.len() {
        assert(s.subrange(0, m) =~= s);
    } else {
        let p = s.subrange(0, m + 1);
        assert(p.drop_last() =~= s.subrange(0, m));
        assert(all_digits(s.subrange(0, m)));
        lemma_digits_value_nonneg(s.subrange(0, m));
        assert(digits_value(p) == digits_value(s.subrange(0, m)) * 10 + digit_value(p.last()));
        lemma_digits_value_prefix(s, m + 1);
    }
}

/// Parses `s` as `str::parse::<u32>` does: an optional leading `+`, then
/// one or more decimal digits, rejecting overflow.
pub fn parse_u32(s: &str) -> (r: Option<u32>)
    ensures
        r == spec_parse_u32(s@),
{
    let n = s.unicode_len();
    let plus = n > 0 && s.get_char(0) == '+';
    let start: usize = if plus {
        1
    } else {
        0
    };
    let ghost d = if s@.len() > 0 && s@[0] == '+' {
        s@.subrange(1, s@.len() as int)
    } else {
        s@
    };
    assert(d.len() == n - start);
    assert(forall|j: int| 0 <= j < d.len() ==> d[j] == s@[start + j]);
    if start == n {
        return None;
    }
    let mut acc: u32 = 0;
    let mut i: usize = start;
    while i < n
        invariant
            start <= i <= n,
            start < n,
            n == s@.len(),
            plus == (s@.len() > 0 && s@[0] == '+'),
            start == (if plus {
                1int
            } else {
                0int
            }),
            d == (if s@.len() > 0 && s@[0] == '+' {
                s@.subrange(1, s@.len() as int)
            } else {
                s@
            }),
            d.len() == n - start,
            forall|j: int| 0 <= j < d.len() ==> d[j] == s@[start + j],
            all_digits(d.subrange(0, i - start)),
            acc == digits_value(d.subrange(0, i - start)),
        decreases n - i,
    {
        let c = s.get_char(i);
        let v = c as u32;
        if v < 48 || v > 57 {
            assert(d[i - start] == s@[i as int]);
            assert(!is_decimal_digit(d[i - start]));
            return None;
        }
        let dv = v - 48;
        proof {
            let p = d.subrange(0, i - start + 1);
            assert(p.drop_last() =~= d.subrange(0, i - start));
            assert(p.last() == d[i - start]);
            assert(d[i - start] == s@[i as int]);
            assert(digit_value(d[i - start]) == dv);
            assert(digits_value(p) == acc * 10 + dv);
            assert(all_digits(p));
        }
        let next: u64 = (acc as u64) * 10 + (dv as u64);
        if next > (u32::MAX as u64) {
            proof {
                if all_digits(d) && digits_value(d) <= u32::MAX {
                    lemma_digits_value_prefix(d, i - start + 1);
                    assert(false);
                }
            }
            return None;
        }
        acc = next as u32;
        i = i + 1;
    }
    proof {
        assert(d.subrange(0, i - start) =~= d);
    }
    Some(acc)
}

/// The process-wide key/value store of configuration overrides.
///
/// Keys are unique; insertion order carries no meaning. Its view is the
/// mapping from key to value it currently holds.
pub struct ConfigStore {
    entries: Vec<(String, String)>,
}

/// Whether the keys of `s` are pairwise distinct.
pub open spec fn keys_unique(s: Seq<(String, String)>) -> bool {
    forall|p: int, q: int|
        0 <= p < q < s.len() ==> (#[trigger] s[p]).0@ != (#[trigger] s[q]).0@
}

/// The mapping that the entry sequence `s` denotes; a later entry for a
/// key overrides an earlier one.
pub open spec fn entries_map(s: Seq<(String, String)>) -> Map<Seq<char>, Seq<char>>
    decreases s.len(),
{
    if s.len() == 0 {
        Map::empty()
    } else {
        entries_map(s.drop_last()).insert(s.last().0@, s.last().1@)
    }
}

impl View for ConfigStore {
    type V = Map<Seq<char>, Seq<char>>;

    closed spec fn view(&self) -> Map<Seq<char>, Seq<char>> {
        entries_map(self.entries@)
    }
}

proof fn lemma_entries_map_index(s: Seq<(String, String)>, i: int)
    requires
        keys_unique(s),
        0 <= i < s.len(),
    ensures
        entries_map(s).contains_key(s[i].0@),
        entries_map(s)[s[i].0@] == s[i].1@,
    decreases s.len(),
{
    if i < s.len() - 1 {
        assert(keys_unique(s.drop_last()));
        assert(s.drop_last()[i] == s[i]);
        lemma_entries_map_index(s.drop_last(), i);
        assert(s.last().0@ != s[i].0@);
    }
}

proof fn lemma_entries_map_absent(s: Seq<(String, String)>, k: Seq<char>)
    requires
        forall|i: int| 0 <= i < s.len() ==> (#[trigger] s[i]).0@ != k,
    ensures
        !entries_map(s).contains_key(k),
    decreases s.len(),
{
    if s.len() > 0 {
        assert(forall|i: int|
            0 <= i < s.drop_last().len() ==> (#[trigger] s.drop_last()[i]).0@ != k);
        lemma_entries_map_absent(s.drop_last(), k);
    }
}

proof fn lemma_entries_map_update(s: Seq<(String, String)>, i: int, p: (String, String))
    requires
        keys_unique(s),
        0 <= i < s.len(),
        p.0@ == s[i].0@,
    ensures
        entries_map(s.update(i, p)) == entries_map(s).insert(p.0@, p.1@),
    decreases s.len(),
{
    let s2 = s.update(i, p);
    if i == s.len() - 1 {
        assert(s2.drop_last() =~= s.drop_last());
        assert(s2.last() == p);
        assert(entries_map(s.drop_last()).insert(s.last().0@, s.last().1@).insert(p.0@, p.1@)
            =~= entries_map(s.drop_last()).insert(p.0@, p.1@));
    } else {
        assert(s2.drop_last() =~= s.drop_last().update(i, p));
        assert(s2.last() == s.last());
        assert(keys_unique(s.drop_last()));
        assert(s.drop_last()[i] == s[i]);
        lemma_entries_map_update(s.drop_last(), i, p);
        assert(s.last().0@ != p.0@);
        assert(entries_map(s.drop_last()).insert(p.0@, p.1@).insert(s.last().0@, s.last().1@)
            =~= entries_map(s.drop_last()).insert(s.last().0@, s.last().1@).insert(p.0@, p.1@));
    }
}

impl ConfigStore {
    /// Whether the store is well formed: no key occurs twice.
    pub closed spec fn wf(&self) -> bool {
        keys_unique(self.entries@)
    }

    /// Creates the store empty, as at process start.
    pub fn new() -> (s: ConfigStore)
        ensures
            s.wf(),
            s@ == Map::<Seq<char>, Seq<char>>::empty(),
    {
        ConfigStore { entries: Vec::new() }
    }

    /// Looks up the value stored for `key`.
    pub fn get(&self, key: &String) -> (r: Option<&String>)
        requires
            self.wf(),
        ensures
            match r {
                Some(v) => self@.contains_key(key@) && v@ == self@[key@],
                None => !self@.contains_key(key@),
            },
    {
        let mut i: usize = 0;
        while i < self.entries.len()
            invariant
                self.wf(),
                i <= self.entries@.len(),
                forall|j: int| 0 <= j < i ==> (#[trigger] self.entries@[j]).0@ != key@,
            decreases self.entries@.len() - i,
        {
            let entry = &self.entries[i];
            if entry.0 == *key {
                proof {
                    lemma_entries_map_index(self.entries@, i as int);
                }
                return Some(&entry.1);
            }
            i = i + 1;
        }
        proof {
            lemma_entries_map_absent(self.entries@, key@);
        }
        None
    }

    /// Inserts or overwrites the entry for `key`. Always succeeds; the key
    /// namespace and the value format are the caller's concern. Every
    /// later read observes the new value.
    pub fn set(&mut self, key: String, value: String)
        requires
            old(self).wf(),
        ensures
            final(self).wf(),
            final(self)@ == old(self)@.insert(key@, value@),
    {
        let ghost k = key@;
        let ghost v = value@;
        let mut i: usize = 0;
        while i < self.entries.len()
            invariant
                *self == *old(self),
                self.wf(),
                k == key@,
                v == value@,
                i <= self.entries@.len(),
                forall|j: int| 0 <= j < i ==> (#[trigger] self.entries@[j]).0@ != k,
            decreases self.entries@.len() - i,
        {
            let entry = &self.entries[i];
            if entry.0 == key {
                let ghost s_old = self.entries@;
                self.entries[i] = (key, value);
                proof {
                    let p = self.entries@[i as int];
                    assert(self.entries@ =~= s_old.update(i as int, p));
                    assert(p.0@ == k && p.1@ == v);
                    lemma_entries_map_update(s_old, i as int, p);
                    assert forall|a: int, b: int|
                        0 <= a < b < self.entries@.len() implies (#[trigger] self.entries@[a]).0@
                        != (#[trigger] self.entries@[b]).0@ by {
                        assert(self.entries@[a].0@ == s_old[a].0@);
                        assert(self.entries@[b].0@ == s_old[b].0@);
                    }
                }
                return ;
            }
            i = i + 1;
        }
        let ghost s_old = self.entries@;
        self.entries.push((key, value));
        proof {
            assert(self.entries@.drop_last() =~= s_old);
            assert(self.entries@.last().0@ == k && self.entries@.last().1@ == v);
            assert forall|a: int, b: int|
                0 <= a < b < self.entries@.len() implies (#[trigger] self.entries@[a]).0@
                != (#[trigger] self.entries@[b]).0@ by {
                if b < self.entries@.len() - 1 {
                    assert(self.entries@[a] == s_old[a]);
                    assert(self.entries@[b] == s_old[b]);
                } else {
                    assert(self.entries@[a] == s_old[a]);
                    assert(s_old[a].0@ != k);
                }
            }
        }
    }

    /// The `chunk_duration` entry parsed as an unsigned integer, or the
    /// default when the entry is absent or unparsable. Never fails.
    pub fn chunk_duration(&self) -> (r: u32)
        requires
            self.wf(),
        ensures
            r == spec_chunk_duration(self@),
    {
        let key = "chunk_duration".to_owned();
        match self.get(&key) {
            Some(value) => match parse_u32(value.as_str()) {
                Some(n) => n,
                None => DEFAULT_CHUNK_DURATION,
            },
            None => DEFAULT_CHUNK_DURATION,
        }
    }
}

/// The duration that the mapping `m` denotes: the `chunk_duration` entry
/// parsed as a `u32`, or the default when absent or unparsable.
pub open spec fn spec_chunk_duration(m: Map<Seq<char>, Seq<char>>) -> u32 {
    if m.contains_key("chunk_duration"@) {
        match spec_parse_u32(m["chunk_duration"@]) {
            Some(n) => n,
            None => DEFAULT_CHUNK_DURATION,
        }
    } else {
        DEFAULT_CHUNK_DURATION
    }
}

/// Law: setting a key and then reading the typed view reflects the new
/// value exactly when the key is `"chunk_duration"` and the value parses
/// as a `u32`; an unparsable value there falls back to the default, and
/// setting any other key leaves the typed view unchanged.
pub proof fn lemma_set_then_chunk_duration(
    m: Map<Seq<char>, Seq<char>>,
    k: Seq<char>,
    v: Seq<char>,
)
    ensures
        k == "chunk_duration"@ ==> spec_chunk_duration(m.insert(k, v)) == (match spec_parse_u32(v) {
            Some(n) => n,
            None => DEFAULT_CHUNK_DURATION,
        }),
        k != "chunk_duration"@ ==> spec_chunk_duration(m.insert(k, v)) == spec_chunk_duration(m),
{
}

/// Law: a freshly initialized store, before any write, denotes the
/// default duration.
pub proof fn lemma_fresh_store_default()
    ensures
        spec_chunk_duration(Map::<Seq<char>, Seq<char>>::empty()) == DEFAULT_CHUNK_DURATION,
{
}

/// The mapping after the writes `ws` — key/value pairs, one per `set`
/// call — are applied to `m` in order. Since the store's lock serializes
/// the critical sections, the writes of any set of concurrent callers are
/// applied in exactly this way, in lock-acquisition order.
pub open spec fn apply_writes(
    m: Map<Seq<char>, Seq<char>>,
    ws: Seq<(Seq<char>, Seq<char>)>,
) -> Map<Seq<char>, Seq<char>>
    decreases ws.len(),
{
    if ws.len() == 0 {
        m
    } else {
        apply_writes(m, ws.drop_last()).insert(ws.last().0, ws.last().1)
    }
}

/// The index of the last write to `k` in `ws`, or `-1` when none writes
/// `k`.
pub open spec fn last_write_to(ws: Seq<(Seq<char>, Seq<char>)>, k: Seq<char>) -> int
    decreases ws.len(),
{
    if ws.len() == 0 {
        -1
    } else if ws.last().0 == k {
        ws.len() - 1
    } else {
        last_write_to(ws.drop_last(), k)
    }
}

/// Law: writes serialized by the store's lock are linearizable. No update
/// is lost: after all writes complete, every written key holds the value
/// of the last write to it in lock-acquisition order, and a key that no
/// write touches keeps its prior binding.
pub proof fn lemma_writes_linearizable(
    m: Map<Seq<char>, Seq<char>>,
    ws: Seq<(Seq<char>, Seq<char>)>,
    k: Seq<char>,
)
    ensures
        (exists|i: int| 0 <= i < ws.len() && (#[trigger] ws[i]).0 == k) ==> {
            let li = last_write_to(ws, k);
            &&& 0 <= li < ws.len()
            &&& ws[li].0 == k
            &&& forall|j: int| li < j < ws.len() ==> (#[trigger] ws[j]).0 != k
            &&& apply_writes(m, ws).contains_key(k)
            &&& apply_writes(m, ws)[k] == ws[li].1
        },
        (forall|i: int| 0 <= i < ws.len() ==> (#[trigger] ws[i]).0 != k) ==> {
            &&& apply_writes(m, ws).contains_key(k) == m.contains_key(k)
            &&& (m.contains_key(k) ==> apply_writes(m, ws)[k] == m[k])
        },
    decreases ws.len(),
{
    if ws.len() > 0 {
        let tail = ws.drop_last();
        lemma_writes_linearizable(m, tail, k);
        assert(forall|j: int| 0 <= j < tail.len() ==> (#[trigger] ws[j]) == tail[j]);
        if ws.last().0 == k {
            let li = last_write_to(ws, k);
            assert(li == ws.len() - 1);
            assert(ws[li] == ws.last());
            assert(exists|i: int| 0 <= i < ws.len() && (#[trigger] ws[i]).0 == k);
        } else {
            if exists|i: int| 0 <= i < ws.len() && (#[trigger] ws[i]).0 == k {
                let i = choose|i: int| 0 <= i < ws.len() && (#[trigger] ws[i]).0 == k;
                assert(i < ws.len() - 1);
                assert(tail[i].0 == k);
                assert(exists|i2: int| 0 <= i2 < tail.len() && (#[trigger] tail[i2]).0 == k);
                let li = last_write_to(tail, k);
                assert(last_write_to(ws, k) == li);
                assert(ws[li] == tail[li]);
                assert(forall|j: int| li < j < tail.len() ==> (#[trigger] tail[j]).0 != k);
                assert forall|j: int| li < j < ws.len() implies (#[trigger] ws[j]).0 != k by {
                    if j < ws.len() - 1 {
                        assert(ws[j] == tail[j]);
                    } else {
                        assert(ws[j] == ws.last());
                    }
                }
            } else {
                assert(forall|i: int| 0 <= i < tail.len() ==> (#[trigger] tail[i]).0 != k);
            }
        }
    }
}

} // verus!
