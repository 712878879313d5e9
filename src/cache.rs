//! The resource cache: which resource addresses are known, with their byte
//! lengths, and the append-only request log that it is rebuilt from.
use vstd::prelude::*;
use vstd::string::*;
use crate::text::{
    decimal, first_occurrence, lemma_decimal_round_trip, lemma_has_first_occurrence, lemma_split_first_of,
    occurs_at, parse_u64, parsed_u64, split_first, split_once,
};
use crate::urls::opt_view;

verus! {

/// The line that ends every record of the request log.
pub open spec fn separator() -> Seq<char> {
    "--------------------------------------------------\n"@
}

/// Maps each known resource address to its byte length; the length 1 also
/// stands for "present, length unknown".
pub struct ResourceCache {
    entries: Vec<(String, u64)>,
}

pub open spec fn has_key(s: Seq<(String, u64)>, k: Seq<char>) -> bool {
    exists|i: int| 0 <= i < s.len() && s[i].0@ == k
}

pub open spec fn keys_unique(s: Seq<(String, u64)>) -> bool {
    forall|i: int, j: int| 0 <= i < s.len() && 0 <= j < s.len() && s[i].0@ == s[j].0@ ==> i == j
}

impl View for ResourceCache {
    type V = Map<Seq<char>, u64>;

    closed spec fn view(&self) -> Map<Seq<char>, u64> {
        Map::new(
            |k: Seq<char>| has_key(self.entries@, k),
            |k: Seq<char>|
                self.entries@[choose|i: int|
                    0 <= i < self.entries@.len() && self.entries@[i].0@ == k].1,
        )
    }
}

/// What a lookup in a cache map gives.
pub open spec fn cached(m: Map<Seq<char>, u64>, url: Seq<char>) -> Option<u64> {
    if m.contains_key(url) {
        Some(m[url])
    } else {
        None
    }
}

impl ResourceCache {
    pub closed spec fn inv(&self) -> bool {
        keys_unique(self.entries@)
    }

    proof fn lemma_at(&self, i: int)
        requires
            self.inv(),
            0 <= i < self.entries@.len(),
        ensures
            self@.contains_key(self.entries@[i].0@),
            self@[self.entries@[i].0@] == self.entries@[i].1,
    {
        let k = self.entries@[i].0@;
        assert(has_key(self.entries@, k));
        let j = choose|j: int| 0 <= j < self.entries@.len() && self.entries@[j].0@ == k;
        assert(i == j);
    }

    /// An empty cache.
    pub fn new() -> (r: ResourceCache)
        ensures
            r.inv(),
            r@ == Map::<Seq<char>, u64>::empty(),
    {
        let r = ResourceCache { entries: Vec::new() };
        assert(r@ =~= Map::<Seq<char>, u64>::empty());
        r
    }

    fn find(&self, url: &str) -> (r: Option<usize>)
        requires
            self.inv(),
        ensures
            match r {
                Some(i) => i < self.entries@.len() && self.entries@[i as int].0@ == url@,
                None => !has_key(self.entries@, url@),
            },
    {
        let key = String::from_str(url);
        let mut i: usize = 0;
        while i < self.entries.len()
            invariant
                0 <= i <= self.entries@.len(),
                key@ == url@,
                forall|j: int| 0 <= j < i ==> self.entries@[j].0@ != url@,
            decreases self.entries@.len() - i,
        {
            if self.entries[i].0 == key {
                return Some(i);
            }
            i = i + 1;
        }
        None
    }

    /// The recorded length of a resource, if it is known.
    pub fn lookup(&self, url: &str) -> (r: Option<u64>)
        requires
            self.inv(),
        ensures
            r == cached(self@, url@),
    {
        match self.find(url) {
            Some(i) => {
                proof {
                    self.lemma_at(i as int);
                }
                Some(self.entries[i].1)
            },
            None => None,
        }
    }

    /// Records the length of a resource, replacing what was known of it.
    pub fn record(&mut self, url: &str, length: u64)
        requires
            old(self).inv(),
        ensures
            final(self).inv(),
            final(self)@ == old(self)@.insert(url@, length),
    {
        let ghost old_map = self@;
        match self.find(url) {
            Some(i) => {
                let ghost old_entries = self.entries@;
                self.entries[i] = (String::from_str(url), length);
                proof {
                    assert forall|a: int, b: int|
                        0 <= a < self.entries@.len() && 0 <= b < self.entries@.len()
                            && self.entries@[a].0@ == self.entries@[b].0@ implies a == b by {
                        assert(old_entries[a].0@ == self.entries@[a].0@);
                        assert(old_entries[b].0@ == self.entries@[b].0@);
                    }
                    assert forall|k: Seq<char>| #[trigger]
                        has_key(self.entries@, k) == (has_key(old_entries, k) || k == url@) by {
                        if has_key(old_entries, k) {
                            let j = choose|j: int| 0 <= j < old_entries.len() && old_entries[j].0@ == k;
                            assert(self.entries@[j].0@ == k);
                        }
                        if has_key(self.entries@, k) {
                            let j = choose|j: int|
                                0 <= j < self.entries@.len() && self.entries@[j].0@ == k;
                            assert(old_entries[j].0@ == k);
                        }
                    }
                    assert forall|k: Seq<char>| #[trigger]
                        self@.contains_key(k) implies self@[k] == old_map.insert(
                        url@,
                        length,
                    )[k] by {
                        let j = choose|j: int|
                            0 <= j < self.entries@.len() && self.entries@[j].0@ == k;
                        self.lemma_at(j);
                        if k != url@ {
                            assert(j != i);
                            assert(old_entries[j] == self.entries@[j]);
                            assert(has_key(old_entries, k));
                            let m = choose|m: int|
                                0 <= m < old_entries.len() && old_entries[m].0@ == k;
                            assert(m == j) by {
                                assert(old_entries[m].0@ == old_entries[j].0@);
                            }
                        }
                    }
                    assert(self@ =~= old_map.insert(url@, length));
                }
            },
            None => {
                let ghost old_entries = self.entries@;
                self.entries.push((String::from_str(url), length));
                proof {
                    let n = old_entries.len() as int;
                    assert forall|k: Seq<char>| #[trigger]
                        has_key(self.entries@, k) == (has_key(old_entries, k) || k == url@) by {
                        if has_key(old_entries, k) {
                            let j = choose|j: int| 0 <= j < old_entries.len() && old_entries[j].0@ == k;
                            assert(self.entries@[j] == old_entries[j]);
                        }
                        if k == url@ {
                            assert(self.entries@[n].0@ == k);
                        }
                        if has_key(self.entries@, k) && k != url@ {
                            let j = choose|j: int|
                                0 <= j < self.entries@.len() && self.entries@[j].0@ == k;
                            assert(j < n);
                            assert(old_entries[j] == self.entries@[j]);
                        }
                    }
                    assert forall|a: int, b: int|
                        0 <= a < self.entries@.len() && 0 <= b < self.entries@.len()
                            && self.entries@[a].0@ == self.entries@[b].0@ implies a == b by {
                        if a < n && b < n {
                            assert(old_entries[a] == self.entries@[a]);
                            assert(old_entries[b] == self.entries@[b]);
                        } else if a < n {
                            assert(old_entries[a] == self.entries@[a]);
                        } else if b < n {
                            assert(old_entries[b] == self.entries@[b]);
                        }
                    }
                    assert forall|k: Seq<char>| #[trigger]
                        self@.contains_key(k) implies self@[k] == old_map.insert(
                        url@,
                        length,
                    )[k] by {
                        let j = choose|j: int|
                            0 <= j < self.entries@.len() && self.entries@[j].0@ == k;
                        self.lemma_at(j);
                        if k != url@ {
                            assert(j < n);
                            assert(old_entries[j] == self.entries@[j]);
                            let m = choose|m: int|
                                0 <= m < old_entries.len() && old_entries[m].0@ == k;
                            assert(old_entries[m] == self.entries@[m]);
                        } else {
                            assert(j == n) by {
                                assert(self.entries@[n].0@ == k);
                            }
                        }
                    }
                    assert(self@ =~= old_map.insert(url@, length));
                }
            },
        }
    }
}

impl ResourceCache {
    /// Notes that a document was fetched: an address seen for the first time
    /// is recorded with the stand-in length 1, and only then is its response
    /// logged. Returns whether it is to be logged.
    pub fn note_fetched(&mut self, url: &str) -> (log: bool)
        requires
            old(self).inv(),
        ensures
            final(self).inv(),
            log == !old(self)@.contains_key(url@),
            final(self)@ == if log {
                old(self)@.insert(url@, 1)
            } else {
                old(self)@
            },
    {
        match self.lookup(url) {
            Some(_) => false,
            None => {
                self.record(url, 1);
                true
            },
        }
    }
}

/// Why the request log could not be replayed.
#[derive(Clone, Copy, PartialEq, Eq, Structural, Debug)]
pub enum LogError {
    /// The record with this position is not a JSON object with a `url` string.
    Malformed { record: usize },
    /// The record's `content-length` header is not a decimal number.
    BadLength { record: usize },
}

/// One response header as it stands in a log record.
pub open spec fn header_entry(h: (Seq<char>, Seq<char>)) -> Seq<char> {
    "\""@ + h.0 + "\": \""@ + h.1 + "\""@
}

/// The response headers of a log record, one per line.
pub open spec fn header_block(hs: Seq<(Seq<char>, Seq<char>)>) -> Seq<char>
    decreases hs.len(),
{
    if hs.len() == 0 {
        seq![]
    } else if hs.len() == 1 {
        header_entry(hs[0])
    } else {
        header_block(hs.drop_last()) + ",\n    "@ + header_entry(hs.last())
    }
}

/// The log record of one response: its address and headers as JSON, then
/// the separator line.
pub open spec fn log_record(url: Seq<char>, hs: Seq<(Seq<char>, Seq<char>)>) -> Seq<char> {
    "{\n  \"url\": \""@ + url + "\",\n  \"response_headers\": {\n    "@ + header_block(hs)
        + "\n  }\n}\n"@ + separator()
}

pub open spec fn headers_view(hs: Seq<(String, String)>) -> Seq<(Seq<char>, Seq<char>)> {
    hs.map_values(|h: (String, String)| (h.0@, h.1@))
}

/// Writes the log record of one response.
pub fn log_record_text(url: &str, headers: &Vec<(String, String)>) -> (r: String)
    ensures
        r@ == log_record(url@, headers_view(headers@)),
{
    let mut block = String::new();
    let mut i: usize = 0;
    while i < headers.len()
        invariant
            0 <= i <= headers@.len(),
            block@ == header_block(headers_view(headers@).take(i as int)),
        decreases headers@.len() - i,
    {
        let ghost hv = headers_view(headers@);
        proof {
            assert(hv.take(i + 1).drop_last() =~= hv.take(i as int));
            assert(hv.take(i + 1).last() == hv[i as int]);
            if i == 0 {
                assert(hv.take(i as int) =~= seq![]);
            }
        }
        if i > 0 {
            block = block.concat(",\n    ");
        }
        block = block.concat("\"").concat(headers[i].0.as_str()).concat("\": \"").concat(
            headers[i].1.as_str(),
        ).concat("\"");
        proof {
            if i == 0 {
                assert(hv.take(1) =~= seq![hv[0]]);
                assert(block@ =~= header_entry(hv[0]));
            }
        }
        i = i + 1;
    }
    proof {
        assert(headers_view(headers@).take(i as int) =~= headers_view(headers@));
    }
    String::from_str("{\n  \"url\": \"").concat(url).concat(
        "\",\n  \"response_headers\": {\n    ",
    ).concat(block.as_str()).concat("\n  }\n}\n").concat(
        "--------------------------------------------------\n",
    )
}

/// The records of a log: the text between separators, where a last record
/// may lack its separator.
pub open spec fn log_records(t: Seq<char>) -> Seq<Seq<char>>
    decreases t.len(),
    via log_records_decreases
{
    match split_first(t, separator()) {
        Some((a, b)) => seq![a] + log_records(b),
        None => if t.len() == 0 {
            seq![]
        } else {
            seq![t]
        },
    }
}

#[via_fn]
proof fn log_records_decreases(t: Seq<char>) {
    match split_first(t, separator()) {
        Some((a, b)) => {
            let j = choose|j: int| occurs_at(t, separator(), j);
            lemma_has_first_occurrence(t, separator(), j);
            let i = choose|i: int| first_occurrence(t, separator(), i);
            reveal_strlit("--------------------------------------------------\n");
            assert(separator().len() > 0);
            assert(b == t.skip(i + separator().len()));
        },
        None => {},
    }
}

/// The address and `content-length` header that a log record holds, as
/// serde_json reads the record.
pub uninterp spec fn json_log_fields(record: Seq<char>) -> Option<(Seq<char>, Option<Seq<char>>)>;

/// Relies on `serde_json::from_str` into a `serde_json::Value`, indexing and
/// `Value::as_str`: the record's `url` string and its
/// `response_headers.content-length` string, or none where the record is not
/// JSON or has no `url` string.
#[verifier::external_body]
fn read_log_fields(record: &str) -> (r: Option<(String, Option<String>)>)
    ensures
        match r {
            Some((u, l)) => json_log_fields(record@) == Some((u@, opt_view(l))),
            None => json_log_fields(record@) is None,
        },
{
    let v: serde_json::Value = serde_json::from_str(record).ok()?;
    let url = v["url"].as_str()?.to_string();
    let length = v["response_headers"]["content-length"].as_str().map(|s| s.to_string());
    Some((url, length))
}

/// The length that a logged `content-length` header stands for: its value,
/// or 1 where the header is missing.
pub open spec fn logged_length(content_length: Option<Seq<char>>) -> Option<u64> {
    match content_length {
        Some(t) => parsed_u64(t),
        None => Some(1),
    }
}

/// Reads a logged `content-length` header.
pub fn entry_length(content_length: Option<&str>) -> (r: Option<u64>)
    ensures
        r == logged_length(
            match content_length {
                Some(t) => Some(t@),
                None => None,
            },
        ),
{
    match content_length {
        Some(t) => parse_u64(t),
        None => Some(1),
    }
}

/// The effect of one log record, at position `index`, on a cache map.
pub open spec fn apply_record(m: Map<Seq<char>, u64>, record: Seq<char>, index: int) -> Result<
    Map<Seq<char>, u64>,
    LogError,
> {
    match json_log_fields(record) {
        None => Err(LogError::Malformed { record: index as usize }),
        Some((u, cl)) => match logged_length(cl) {
            None => Err(LogError::BadLength { record: index as usize }),
            Some(n) => Ok(m.insert(u, n)),
        },
    }
}

/// The cache map after replaying records in order.
pub open spec fn replay(m: Map<Seq<char>, u64>, records: Seq<Seq<char>>) -> Result<
    Map<Seq<char>, u64>,
    LogError,
>
    decreases records.len(),
{
    if records.len() == 0 {
        Ok(m)
    } else {
        match replay(m, records.drop_last()) {
            Ok(m2) => apply_record(m2, records.last(), records.len() - 1),
            Err(e) => Err(e),
        }
    }
}

impl ResourceCache {
    /// Applies one record of the log, whose fields were read as given.
    pub fn apply_log_entry(&mut self, url: &str, content_length: Option<&str>, index: usize) -> (r:
        Result<(), LogError>)
        requires
            old(self).inv(),
        ensures
            final(self).inv(),
            match logged_length(
                match content_length {
                    Some(t) => Some(t@),
                    None => None,
                },
            ) {
                Some(n) => r is Ok && final(self)@ == old(self)@.insert(url@, n),
                None => r == Err::<(), LogError>(LogError::BadLength { record: index })
                    && final(self)@ == old(self)@,
            },
    {
        match entry_length(content_length) {
            Some(n) => {
                self.record(url, n);
                Ok(())
            },
            None => Err(LogError::BadLength { record: index }),
        }
    }

    /// Rebuilds a cache from the text of the request log.
    pub fn from_log(text: &str) -> (r: Result<ResourceCache, LogError>)
        ensures
            match replay(Map::empty(), log_records(text@)) {
                Ok(m) => r is Ok && r->Ok_0.inv() && r->Ok_0@ == m,
                Err(e) => r == Err::<ResourceCache, LogError>(e),
            },
    {
        let text_len = text.unicode_len();
        let mut cache = ResourceCache::new();
        let mut rest: &str = text;
        let ghost mut done: Seq<Seq<char>> = seq![];
        let mut index: usize = 0;
        loop
            invariant
                cache.inv(),
                index == done.len(),
                log_records(text@) == done + log_records(rest@),
                replay(Map::empty(), done) == Ok::<Map<Seq<char>, u64>, LogError>(cache@),
                index <= text@.len() - rest@.len(),
                rest@.len() <= text@.len(),
                text_len == text@.len(),
            decreases rest@.len(),
        {
            let (record, next, last) = match split_once(rest, "--------------------------------------------------\n") {
                Some((a, b)) => {
                    proof {
                        lemma_split_first_of(rest@, separator(), a@, b@);
                        reveal_strlit("--------------------------------------------------\n");
                        assert(log_records(rest@) == seq![a@] + log_records(b@));
                    }
                    (a, b, false)
                },
                None => {
                    if rest.unicode_len() == 0 {
                        proof {
                            assert(log_records(rest@) == Seq::<Seq<char>>::empty());
                            assert(done + log_records(rest@) =~= done);
                        }
                        return Ok(cache);
                    }
                    proof {
                        assert(log_records(rest@) == seq![rest@]);
                    }
                    (rest, rest, true)
                },
            };
            let ghost before = cache@;
            proof {
                assert(log_records(text@).take(done.len() + 1 as int) =~= done.push(record@));
            }
            match read_log_fields(record) {
                None => {
                    proof {
                        lemma_replay_prefix_err(done, record@, log_records(text@));
                    }
                    return Err(LogError::Malformed { record: index });
                },
                Some((u, cl)) => {
                    let cl_ref: Option<&str> = match &cl {
                        Some(t) => Some(t.as_str()),
                        None => None,
                    };
                    let res = cache.apply_log_entry(u.as_str(), cl_ref, index);
                    proof {
                        assert(done.push(record@).drop_last() =~= done);
                    }
                    if res.is_err() {
                        proof {
                            lemma_replay_prefix_err(done, record@, log_records(text@));
                        }
                        return Err(LogError::BadLength { record: index });
                    }
                },
            }
            proof {
                done = done.push(record@);
            }
            index = index + 1;
            if last {
                proof {
                    assert(log_records(text@) =~= done);
                }
                return Ok(cache);
            }
            proof {
                assert(log_records(text@) =~= done + log_records(next@));
            }
            rest = next;
        }
    }
}

/// An error while replaying a prefix of the records is the error of the whole.
proof fn lemma_replay_prefix_err(done: Seq<Seq<char>>, rec: Seq<char>, all: Seq<Seq<char>>)
    requires
        replay(Map::empty(), done) is Ok,
        apply_record(replay(Map::empty(), done)->Ok_0, rec, done.len() as int) is Err,
        all.len() > done.len(),
        all.take(done.len() + 1 as int) == done.push(rec),
    ensures
        replay(Map::empty(), all) == apply_record(
            replay(Map::empty(), done)->Ok_0,
            rec,
            done.len() as int,
        ),
{
    assert(done.push(rec).drop_last() =~= done);
    lemma_replay_err_sticky(all, done.len() + 1 as int);
}

proof fn lemma_replay_err_sticky(recs: Seq<Seq<char>>, k: int)
    requires
        0 < k <= recs.len(),
        replay(Map::empty(), recs.take(k)) is Err,
    ensures
        replay(Map::empty(), recs) == replay(Map::empty(), recs.take(k)),
    decreases recs.len() - k,
{
    if k < recs.len() {
        assert(recs.take(k + 1).drop_last() =~= recs.take(k));
        lemma_replay_err_sticky(recs, k + 1);
    } else {
        assert(recs.take(k) =~= recs);
    }
}

/// A resource is skipped, with no transfer, when the cache holds a non-zero
/// length for it that the file on disk has.
pub open spec fn skips_transfer(m: Map<Seq<char>, u64>, url: Seq<char>, on_disk: Option<u64>) -> bool {
    m.contains_key(url) && m[url] != 0 && on_disk == Some(m[url])
}

/// Whether a resource can be skipped without any request.
pub fn can_skip(cache: &ResourceCache, url: &str, on_disk: Option<u64>) -> (r: bool)
    requires
        cache.inv(),
    ensures
        r == skips_transfer(cache@, url@, on_disk),
{
    match cache.lookup(url) {
        Some(n) => n != 0 && on_disk == Some(n),
        None => false,
    }
}

/// Once a resource of non-zero length has been fetched and recorded, fetching
/// it again while the file keeps that length transfers nothing; and a cache
/// replayed from a log record that holds the same length skips it just so.
pub proof fn lemma_second_fetch_is_cache_hit(
    m: Map<Seq<char>, u64>,
    url: Seq<char>,
    length: u64,
    record: Seq<char>,
)
    requires
        length != 0,
        json_log_fields(record) == Some((url, Some(decimal(length as nat)))),
    ensures
        skips_transfer(m.insert(url, length), url, Some(length)),
        replay(Map::empty(), seq![record]) is Ok,
        skips_transfer(replay(Map::empty(), seq![record])->Ok_0, url, Some(length)),
{
    lemma_decimal_round_trip(length as nat);
    assert(parsed_u64(decimal(length as nat)) == Some(length));
    assert(logged_length(Some(decimal(length as nat))) == Some(length));
    assert(seq![record].drop_last() =~= Seq::<Seq<char>>::empty());
    assert(replay(Map::empty(), Seq::<Seq<char>>::empty()) == Ok::<Map<Seq<char>, u64>, LogError>(Map::empty()));
    assert(apply_record(Map::empty(), record, 0) == Ok::<Map<Seq<char>, u64>, LogError>(Map::<Seq<char>, u64>::empty().insert(url, length)));
}

/// Recording a resource that is already recorded with the same length leaves
/// the cache as it was: a second fetch adds no record.
pub proof fn lemma_record_idempotent(m: Map<Seq<char>, u64>, url: Seq<char>, length: u64)
    requires
        m.contains_key(url),
        m[url] == length,
    ensures
        m.insert(url, length) == m,
{
    assert(m.insert(url, length) =~= m);
}

} // verus!
