use vstd::prelude::*;
use vstd::string::StrSliceExecFns;
use vstd::utf8::encode_utf8;
use crate::digest::{sha1_digest, sha1_of};
use crate::hex::{hex_encode, hex_text};
use crate::keys::{p256_signature_valid, random_bytes, verify};
use crate::hex::{hex_text_bytes, is_hex_text};
use crate::lookup::{call_to, is_alone, lemma_alone_search, search_started, search_step, Event, NodeCall, Step, SuccessorSearch};
use crate::messages::DhtMessage;
use crate::node::{same_id, ChordNode, NodeInfo};
use crate::selection::{first_with_id, id_listed, is_first_occurrences_of};
use crate::ring::NodeId;
use crate::storage::{RetrieveOp, StoreOp};
use crate::store::{byte_lists, values_at};
use crate::store::{keys_distinct, lemma_map_of_dom, lemma_map_of_index, lemma_map_of_remove, lemma_map_of_update, map_of};

verus! {

/// How long a challenge may be answered, in nanoseconds.
pub const CHALLENGE_EXPIRATION_NANOS: u64 = 60_000_000_000;

/// The DHT key under which the messages to `public_key` are stored: the SHA-1
/// digest of the key's text.
pub fn generate_key(public_key: &str) -> (r: NodeId)
    ensures
        r@ == sha1_of(encode_utf8(public_key@)),
{
    sha1_digest(public_key.as_bytes())
}

/// The characters `public_key=`.
pub open spec fn param_prefix() -> Seq<char> {
    seq!['p', 'u', 'b', 'l', 'i', 'c', '_', 'k', 'e', 'y', '=']
}

/// The first index from `from` on that holds `c`, or the length when none does.
pub open spec fn next_index_of(q: Seq<char>, c: char, from: int) -> int
    decreases q.len() - from,
{
    if from < 0 || from >= q.len() {
        if from < 0 { 0 } else { q.len() as int }
    } else if q[from] == c {
        from
    } else {
        next_index_of(q, c, from + 1)
    }
}

pub proof fn lemma_next_index_of(q: Seq<char>, c: char, from: int)
    requires
        0 <= from <= q.len(),
    ensures
        from <= next_index_of(q, c, from) <= q.len(),
        next_index_of(q, c, from) < q.len() ==> q[next_index_of(q, c, from)] == c,
        forall|k: int| from <= k < next_index_of(q, c, from) ==> q[k] != c,
    decreases q.len() - from,
{
    if from < q.len() && q[from] != c {
        lemma_next_index_of(q, c, from + 1);
    }
}

/// Where the first `&`-separated parameter starting with `public_key=` begins, looking
/// at the parameters from position `start` on.
pub open spec fn find_param(q: Seq<char>, start: int) -> Option<int>
    decreases q.len() - start,
{
    if start < 0 || start > q.len() {
        None
    } else {
        let end = next_index_of(q, '&', start);
        proof {
            lemma_next_index_of(q, '&', start);
        }
        if end - start >= 11 && q.subrange(start, start + 11) == param_prefix() {
            Some(start)
        } else if end < q.len() {
            find_param(q, end + 1)
        } else {
            None
        }
    }
}

/// The value of the `public_key` parameter of a query: the text after `public_key=` up
/// to the next `=` or the end of the parameter.
pub open spec fn query_public_key_spec(q: Seq<char>) -> Option<Seq<char>> {
    match find_param(q, 0) {
        Some(start) => {
            let end = next_index_of(q, '&', start);
            let eq = next_index_of(q, '=', start + 11);
            let stop = if eq < end { eq } else { end };
            Some(q.subrange(start + 11, stop))
        },
        None => None,
    }
}

fn index_of_from(q: &str, n: usize, c: char, from: usize) -> (r: usize)
    requires
        n == q@.len(),
        from <= n,
    ensures
        r as int == next_index_of(q@, c, from as int),
{
    let mut i = from;
    while i < n
        invariant
            n == q@.len(),
            from <= i <= n,
            next_index_of(q@, c, from as int) == next_index_of(q@, c, i as int),
        decreases n - i,
    {
        if q.get_char(i) == c {
            return i;
        }
        i = i + 1;
    }
    i
}

fn has_prefix_at(q: &str, n: usize, start: usize) -> (r: bool)
    requires
        n == q@.len(),
        start + 11 <= n,
    ensures
        r == (q@.subrange(start as int, start + 11) == param_prefix()),
{
    let prefix: [char; 11] = ['p', 'u', 'b', 'l', 'i', 'c', '_', 'k', 'e', 'y', '='];
    assert(prefix@ =~= param_prefix());
    let mut k: usize = 0;
    while k < 11
        invariant
            k <= 11,
            n == q@.len(),
            start + 11 <= n,
            prefix@ == param_prefix(),
            forall|j: int| 0 <= j < k ==> q@[start + j] == prefix@[j],
        decreases 11 - k,
    {
        if q.get_char(start + k) != prefix[k] {
            assert(q@.subrange(start as int, start + 11)[k as int] != param_prefix()[k as int]);
            return false;
        }
        k = k + 1;
    }
    assert(q@.subrange(start as int, start + 11) =~= param_prefix());
    true
}

/// The `public_key` parameter of a query string, when there is one.
pub fn query_public_key(query: &str) -> (r: Option<String>)
    ensures
        r is Some <==> query_public_key_spec(query@) is Some,
        r matches Some(s) ==> s@ == query_public_key_spec(query@)->0,
{
    let n = query.unicode_len();
    let mut start: usize = 0;
    loop
        invariant
            n == query@.len(),
            start <= n,
            find_param(query@, 0) == find_param(query@, start as int),
        decreases n - start,
    {
        let end = index_of_from(query, n, '&', start);
        proof {
            lemma_next_index_of(query@, '&', start as int);
        }
        if end - start >= 11 && has_prefix_at(query, n, start) {
            let value_start = start + 11;
            let eq = index_of_from(query, n, '=', value_start);
            proof {
                lemma_next_index_of(query@, '=', value_start as int);
            }
            let stop = if eq < end { eq } else { end };
            let value = query.substring_char(value_start, stop);
            return Some(value.to_owned());
        }
        if end < n {
            start = end + 1;
        } else {
            return None;
        }
    }
}

/// An open challenge: the nonce issued to a public key, and when (in nanoseconds).
pub struct Challenge {
    pub public_key: String,
    pub nonce: Vec<u8>,
    pub issued_at: u64,
}

/// Whether a challenge issued at `issued_at` is still open at `now`.
pub open spec fn challenge_live(now: u64, issued_at: u64) -> bool {
    (if now >= issued_at { now - issued_at } else { 0int }) < CHALLENGE_EXPIRATION_NANOS
}

/// A challenge as (public key, (nonce, time issued)).
pub open spec fn challenge_view(c: Challenge) -> (Seq<char>, (Seq<u8>, u64)) {
    (c.public_key@, (c.nonce@, c.issued_at))
}

/// Keeping the entries that satisfy `p` keeps the keys distinct, and gives the map
/// restricted to the keys whose entries satisfy `p`.
pub proof fn lemma_map_of_filter<K, V>(s: Seq<(K, V)>, p: spec_fn((K, V)) -> bool)
    requires
        keys_distinct(s),
    ensures
        keys_distinct(s.filter(p)),
        map_of(s.filter(p)) == map_of(s).restrict(Set::new(|k: K| map_of(s).dom().contains(k) && p((k, map_of(s)[k])))),
        forall|a: int| 0 <= a < s.filter(p).len() ==> exists|j: int| 0 <= j < s.len() && s[j] == #[trigger] s.filter(p)[a],
    decreases s.len(),
{
    reveal(Seq::filter);
    let m = map_of(s);
    if s.len() == 0 {
        assert(map_of(s).restrict(Set::new(|k: K| map_of(s).dom().contains(k) && p((k, map_of(s)[k])))) =~= map_of(s.filter(p)));
    } else {
        let t = s.drop_last();
        let e = s.last();
        lemma_map_of_filter(t, p);
        lemma_map_of_dom(t, e.0);
        assert(!map_of(t).dom().contains(e.0)) by {
            if map_of(t).dom().contains(e.0) {
                let j = choose|j: int| 0 <= j < t.len() && (#[trigger] t[j]).0 == e.0;
                assert(s[j].0 == s[s.len() - 1].0);
            }
        }
        assert forall|a: int| 0 <= a < t.filter(p).len() implies exists|j: int| 0 <= j < s.len() && s[j] == #[trigger] t.filter(p)[a] by {
            let j = choose|j: int| 0 <= j < t.len() && t[j] == t.filter(p)[a];
            assert(s[j] == t[j]);
        }
        let mt = map_of(t);
        let keep_t = Set::new(|k: K| mt.dom().contains(k) && p((k, mt[k])));
        let keep_s = Set::new(|k: K| m.dom().contains(k) && p((k, m[k])));
        if p(e) {
            assert(s.filter(p) == t.filter(p).push(e));
            assert forall|a: int, b: int| 0 <= a < b < s.filter(p).len() implies s.filter(p)[a].0 != s.filter(p)[b].0 by {
                if b == s.filter(p).len() - 1 {
                    let j = choose|j: int| 0 <= j < s.len() && s[j] == #[trigger] t.filter(p)[a];
                    if j == s.len() - 1 {
                        let k = choose|k: int| 0 <= k < t.len() && t[k] == t.filter(p)[a];
                        assert(s[k] == t[k]);
                    }
                    assert(s.filter(p)[a] == t.filter(p)[a]);
                } else {
                    assert(s.filter(p)[a] == t.filter(p)[a]);
                    assert(s.filter(p)[b] == t.filter(p)[b]);
                }
            }
            assert forall|a: int| 0 <= a < s.filter(p).len() implies exists|j: int| 0 <= j < s.len() && s[j] == #[trigger] s.filter(p)[a] by {
                if a == s.filter(p).len() - 1 {
                    assert(s[s.len() - 1] == s.filter(p)[a]);
                } else {
                    assert(s.filter(p)[a] == t.filter(p)[a]);
                }
            }
            assert(t.filter(p).push(e).drop_last() =~= t.filter(p));
            assert(map_of(s.filter(p)) == map_of(t.filter(p)).insert(e.0, e.1));
            assert(m == mt.insert(e.0, e.1));
            assert(m.restrict(keep_s) =~= mt.restrict(keep_t).insert(e.0, e.1));
            assert(map_of(s.filter(p)) =~= m.restrict(keep_s));
        } else {
            assert(s.filter(p) == t.filter(p));
            assert(m == mt.insert(e.0, e.1));
            assert(m.restrict(keep_s) =~= mt.restrict(keep_t));
            assert(map_of(s.filter(p)) =~= m.restrict(keep_s));
        }
    }
}

/// Whether `nonce` and `signature` answer the open challenge of `public_key` in `book`:
/// the nonce is the one issued to that key, and the signature of the nonce verifies
/// under the key.
pub open spec fn answers_challenge(
    book: Map<Seq<char>, (Seq<u8>, u64)>,
    public_key: Seq<char>,
    nonce: Seq<u8>,
    signature: Seq<u8>,
) -> bool {
    &&& book.dom().contains(public_key)
    &&& book[public_key].0 == nonce
    &&& is_hex_text(public_key)
    &&& p256_signature_valid(hex_text_bytes(public_key), nonce, signature)
}

/// The challenges issued to clients that want to read their messages; each public
/// key has at most one.
pub struct ChallengeBook {
    entries: Vec<Challenge>,
}

impl View for ChallengeBook {
    type V = Map<Seq<char>, (Seq<u8>, u64)>;

    /// The open challenges: the nonce of each public key, and when it was issued.
    closed spec fn view(&self) -> Map<Seq<char>, (Seq<u8>, u64)> {
        map_of(self.entries@.map_values(|c: Challenge| challenge_view(c)))
    }
}

impl ChallengeBook {
    spec fn pairs(&self) -> Seq<(Seq<char>, (Seq<u8>, u64))> {
        self.entries@.map_values(|c: Challenge| challenge_view(c))
    }

    /// Whether no public key has two challenges.
    pub closed spec fn wf(&self) -> bool {
        keys_distinct(self.pairs())
    }

    /// An empty book.
    pub fn new() -> (r: ChallengeBook)
        ensures
            r.wf(),
            r@ == Map::<Seq<char>, (Seq<u8>, u64)>::empty(),
    {
        let r = ChallengeBook { entries: Vec::new() };
        assert(r.pairs() =~= Seq::<(Seq<char>, (Seq<u8>, u64))>::empty());
        r
    }

    fn position(&self, key: &String) -> (r: Option<usize>)
        requires
            self.wf(),
        ensures
            r matches Some(i) ==> i < self.pairs().len() && self.pairs()[i as int].0 == key@,
            r is None ==> !self@.dom().contains(key@),
    {
        let mut i: usize = 0;
        while i < self.entries.len()
            invariant
                i <= self.entries@.len(),
                forall|j: int| 0 <= j < i ==> (#[trigger] self.entries@[j]).public_key@ != key@,
            decreases self.entries@.len() - i,
        {
            if self.entries[i].public_key == *key {
                return Some(i);
            }
            i = i + 1;
        }
        proof {
            lemma_map_of_dom(self.pairs(), key@);
            if self@.dom().contains(key@) {
                let j = choose|j: int| 0 <= j < self.pairs().len() && (#[trigger] self.pairs()[j]).0 == key@;
                assert(self.entries@[j].public_key@ == key@);
            }
        }
        None
    }

    /// Drops the challenges that are no longer open at `now`.
    pub fn expire(&mut self, now: u64)
        requires
            old(self).wf(),
        ensures
            final(self).wf(),
            final(self)@ == old(self)@.restrict(
                Set::new(|k: Seq<char>| old(self)@.dom().contains(k) && challenge_live(now, old(self)@[k].1)),
            ),
    {
        let mut kept: Vec<Challenge> = Vec::new();
        let mut i: usize = 0;
        let ghost pred = |c: (Seq<char>, (Seq<u8>, u64))| challenge_live(now, c.1.1);
        while i < self.entries.len()
            invariant
                i <= self.entries@.len(),
                pred == (|c: (Seq<char>, (Seq<u8>, u64))| challenge_live(now, c.1.1)),
                kept@.map_values(|c: Challenge| challenge_view(c)) == self.pairs().take(i as int).filter(pred),
            decreases self.entries@.len() - i,
        {
            proof {
                assert(self.pairs().take(i + 1) =~= self.pairs().take(i as int).push(self.pairs()[i as int]));
                self.pairs().take(i as int).lemma_filter_push(self.pairs()[i as int], pred);
            }
            let c = &self.entries[i];
            let age: u64 = if now >= c.issued_at { now - c.issued_at } else { 0 };
            if age < CHALLENGE_EXPIRATION_NANOS {
                let ghost before = kept@;
                let copy = Challenge {
                    public_key: c.public_key.clone(),
                    nonce: crate::store::copy_bytes(&c.nonce),
                    issued_at: c.issued_at,
                };
                kept.push(copy);
                proof {
                    assert(kept@.map_values(|c: Challenge| challenge_view(c)) =~= before.map_values(
                        |c: Challenge| challenge_view(c),
                    ).push(self.pairs()[i as int]));
                }
            }
            i = i + 1;
        }
        proof {
            assert(self.pairs().take(i as int) =~= self.pairs());
            lemma_map_of_filter(self.pairs(), pred);
        }
        self.entries = kept;
    }

    /// Issues `nonce` as the challenge of `public_key` at `now`, replacing any earlier
    /// one.
    pub fn issue(&mut self, public_key: String, nonce: Vec<u8>, now: u64)
        requires
            old(self).wf(),
        ensures
            final(self).wf(),
            final(self)@ == old(self)@.insert(public_key@, (nonce@, now)),
    {
        let ghost before = self.pairs();
        let ghost entry = (public_key@, (nonce@, now));
        match self.position(&public_key) {
            Some(i) => {
                proof {
                    lemma_map_of_update(before, i as int, (nonce@, now));
                }
                self.entries.set(i, Challenge { public_key, nonce, issued_at: now });
                proof {
                    assert(self.pairs() =~= before.update(i as int, (before[i as int].0, (nonce@, now))));
                }
            },
            None => {
                proof {
                    lemma_map_of_dom(before, public_key@);
                }
                self.entries.push(Challenge { public_key, nonce, issued_at: now });
                proof {
                    assert(self.pairs() =~= before.push(entry));
                    assert(self.pairs().drop_last() =~= before);
                    assert forall|a: int, b: int| 0 <= a < b < self.pairs().len() implies self.pairs()[a].0 != self.pairs()[b].0 by {
                        if b == before.len() {
                            assert(before[a].0 != entry.0);
                        } else {
                            assert(self.pairs()[a] == before[a]);
                            assert(self.pairs()[b] == before[b]);
                        }
                    }
                }
            },
        }
    }

    /// Answers a challenge: it succeeds when `public_key` has a challenge with this
    /// nonce and `signature` signs the nonce under the key; the challenge is then used
    /// up. A challenge is not checked for expiry here.
    pub fn redeem(&mut self, public_key: &String, nonce: &Vec<u8>, signature: &Vec<u8>) -> (r: bool)
        requires
            old(self).wf(),
        ensures
            final(self).wf(),
            r == answers_challenge(old(self)@, public_key@, nonce@, signature@),
            r ==> final(self)@ == old(self)@.remove(public_key@),
            !r ==> final(self)@ == old(self)@,
    {
        match self.position(public_key) {
            None => false,
            Some(i) => {
                proof {
                    lemma_map_of_index(self.pairs(), i as int);
                }
                let same_nonce = crate::store::bytes_equal(&self.entries[i].nonce, nonce);
                if !same_nonce {
                    return false;
                }
                if !verify(public_key.as_str(), nonce.as_slice(), signature.as_slice()) {
                    return false;
                }
                let ghost before = self.pairs();
                proof {
                    lemma_map_of_remove(before, i as int);
                }
                self.entries.remove(i);
                proof {
                    assert(self.pairs() =~= before.remove(i as int));
                }
                true
            },
        }
    }
}

/// Issues a challenge for the public key named in `query` at `now`: challenges no
/// longer open are dropped, a fresh 32-byte nonce is recorded for the key, and its
/// hexadecimal text returned. `None` when the query names no public key.
pub fn get_challenge(book: &mut ChallengeBook, query: &str, now: u64) -> (r: Option<String>)
    requires
        old(book).wf(),
    ensures
        final(book).wf(),
        query_public_key_spec(query@) is None ==> r is None && final(book)@ == old(book)@,
        query_public_key_spec(query@) matches Some(key) ==> {
            &&& r is Some
            &&& exists|nonce: Seq<u8>|
                {
                    &&& nonce.len() == 32
                    &&& r->Some_0@ == hex_text(nonce)
                    &&& #[trigger] final(book)@ == old(book)@.restrict(
                        Set::new(|k: Seq<char>| old(book)@.dom().contains(k) && challenge_live(now, old(book)@[k].1)),
                    ).insert(key, (nonce, now))
                }
        },
{
    let key = match query_public_key(query) {
        Some(k) => k,
        None => return None,
    };
    book.expire(now);
    let nonce = random_bytes(32);
    let text = hex_encode(nonce.as_slice());
    let ghost n = nonce@;
    book.issue(key, nonce, now);
    Some(text)
}


/// How many random keys are tried when looking for a reachable node.
pub const CONNECT_ATTEMPTS: u32 = 10;

/// Where the search for a reachable node waits.
pub enum ConnectPhase {
    Searching,
    Pinging,
    Done,
}

/// The search for a node a client can talk to: up to ten times, a random key is
/// hashed and its successor looked up; this node, or a successor that answers a
/// ping, is the answer, given by its API address.
pub struct ConnectSearch {
    pub attempt: u32,
    pub phase: ConnectPhase,
    pub key: NodeId,
    pub search: SuccessorSearch,
    pub candidate: NodeInfo,
}

impl ConnectSearch {
    pub open spec fn inv(&self) -> bool {
        &&& self.search.inv()
        &&& self.attempt <= CONNECT_ATTEMPTS
        &&& self.phase !is Done ==> self.attempt < CONNECT_ATTEMPTS
    }

    /// Whether `r` answers with the candidate found, or pings it.
    pub open spec fn found(&self, node: ChordNode, n: NodeInfo, r: Step<Option<String>>) -> bool {
        &&& self.candidate == n
        &&& if n.id == node.info.id {
            self.phase is Done && r == Step::Done(Some(n.api_address))
        } else {
            self.phase is Pinging && r == call_to::<Option<String>>(n, DhtMessage::Ping)
        }
    }

    /// How attempt `from` goes: while attempts are left, the search for the successor of
    /// the SHA-1 of twenty random bytes starts, and the node it finds is answered with
    /// or pinged; with none left the search gives up.
    pub open spec fn attempted(&self, node: ChordNode, from: u32, r: Step<Option<String>>) -> bool {
        if from < CONNECT_ATTEMPTS {
            &&& self.attempt == from
            &&& exists|seed: Seq<u8>| seed.len() == 20 && self.key@ == #[trigger] sha1_of(seed)
            &&& search_started(node, self.key, self.search, search_step(self.phase is Searching, r, self.search.answer))
            &&& self.phase is Searching ==> r is Call
            &&& self.phase !is Searching ==> self.found(node, self.search.answer, r)
        } else {
            self.phase is Done && r == Step::<Option<String>>::Done(None)
        }
    }

    fn on_found(&mut self, node: &ChordNode, n: NodeInfo) -> (r: Step<Option<String>>)
        requires
            old(self).inv(),
            old(self).attempt < CONNECT_ATTEMPTS,
        ensures
            final(self).inv(),
            final(self).attempt == old(self).attempt,
            final(self).search == old(self).search,
            final(self).key == old(self).key,
            final(self).found(*node, n, r),
    {
        if same_id(&n.id, &node.info.id) {
            let api = n.api_address.clone();
            self.candidate = n;
            self.phase = ConnectPhase::Done;
            return Step::Done(Some(api));
        }
        let address = n.address.clone();
        self.candidate = n;
        self.phase = ConnectPhase::Pinging;
        Step::Call(NodeCall { address, message: DhtMessage::Ping })
    }

    fn try_from(&mut self, node: &ChordNode, from: u32) -> (r: Step<Option<String>>)
        requires
            node.wf(),
            old(self).search.inv(),
            from <= CONNECT_ATTEMPTS,
        ensures
            final(self).inv(),
            final(self).attempted(*node, from, r),
    {
        self.attempt = from;
        while self.attempt < CONNECT_ATTEMPTS
            invariant
                node.wf(),
                self.search.inv(),
                self.attempt == from,
                from <= CONNECT_ATTEMPTS,
            decreases CONNECT_ATTEMPTS - self.attempt,
        {
            let seed = random_bytes(20);
            let key = sha1_digest(seed.as_slice());
            let (search, st) = SuccessorSearch::begin(node, key);
            self.search = search;
            self.key = key;
            proof {
                assert(self.key@ == sha1_of(seed@));
            }
            match st {
                Step::Call(c) => {
                    self.phase = ConnectPhase::Searching;
                    return Step::Call(c);
                },
                Step::Done(n) => {
                    return self.on_found(node, n);
                },
            }
        }
        self.phase = ConnectPhase::Done;
        Step::Done(None)
    }

    /// Starts the search. A node alone on the ring answers with itself at once.
    pub fn begin(node: &ChordNode) -> (r: (ConnectSearch, Step<Option<String>>))
        requires
            node.wf(),
        ensures
            r.0.inv(),
            r.0.attempted(*node, 0, r.1),
            is_alone(*node) ==> r.1 == Step::Done(Some(node.info.api_address)),
    {
        let search = SuccessorSearch::begin(node, node.info.id).0;
        let mut op = ConnectSearch {
            attempt: 0,
            phase: ConnectPhase::Done,
            key: node.info.id,
            search,
            candidate: node.info.copied(),
        };
        let r = op.try_from(node, 0);
        proof {
            if is_alone(*node) {
                lemma_alone_search(*node, op.key, op.search, search_step(op.phase is Searching, r, op.search.answer));
            }
        }
        (op, r)
    }

    /// Goes on after `event`: a candidate that answers the ping is the answer; one
    /// that does not makes way for the next attempt.
    pub fn step(&mut self, node: &ChordNode, event: Event) -> (r: Step<Option<String>>)
        requires
            node.wf(),
            old(self).inv(),
        ensures
            final(self).inv(),
            old(self).phase is Searching ==> {
                &&& final(self).attempt == old(self).attempt
                &&& final(self).key == old(self).key
                &&& old(self).search.stepped(*node, event, final(self).search, search_step(final(self).phase is Searching, r, final(self).search.answer))
                &&& final(self).phase is Searching ==> r is Call
                &&& final(self).phase !is Searching ==> final(self).found(*node, final(self).search.answer, r)
            },
            old(self).phase is Pinging && event == Event::Reply(DhtMessage::Pong) ==> r == Step::Done(
                Some(old(self).candidate.api_address),
            ),
            old(self).phase is Pinging && event != Event::Reply(DhtMessage::Pong) ==> final(self).attempted(
                *node,
                (old(self).attempt + 1) as u32,
                r,
            ),
            old(self).phase is Done ==> r == Step::<Option<String>>::Done(None),
    {
        match self.phase {
            ConnectPhase::Searching => match self.search.step(node, event) {
                Step::Call(c) => Step::Call(c),
                Step::Done(n) => self.on_found(node, n),
            },
            ConnectPhase::Pinging => {
                let pong = match event {
                    Event::Reply(DhtMessage::Pong) => true,
                    _ => false,
                };
                if pong {
                    self.phase = ConnectPhase::Done;
                    return Step::Done(Some(self.candidate.api_address.clone()));
                }
                let next = self.attempt + 1;
                self.try_from(node, next)
            },
            ConnectPhase::Done => Step::Done(None),
        }
    }
}

/// What came of delivering a message.
pub enum DeliveryOutcome {
    Delivered,
    Failed,
}

/// Where a delivery waits.
pub enum DeliveryPhase {
    Locating,
    Storing,
    Sending,
    Done,
}

/// Delivering a message to the holder of a public key: the serialized message is
/// stored under the key's hash, on this node when it is responsible, else on the
/// responsible node.
pub struct DeliverMessage {
    pub key: NodeId,
    pub value: Vec<u8>,
    pub phase: DeliveryPhase,
    pub search: SuccessorSearch,
    pub store: Option<StoreOp>,
}

impl DeliverMessage {
    pub open spec fn inv(&self) -> bool {
        &&& self.search.inv()
        &&& self.phase is Storing ==> self.store is Some && self.store->Some_0.inv()
    }

    /// How the delivery of `value` under `key` goes on once the node responsible for the
    /// key, `n`, is known: on this node the value is stored as by `StoreOp` (the node
    /// `before` becomes `after`); elsewhere it is sent to `n` in a `Store` call. The
    /// delivery becomes `op` and takes the step `r`.
    pub open spec fn routed(
        key: NodeId,
        value: Seq<u8>,
        before: ChordNode,
        after: ChordNode,
        n: NodeInfo,
        op: DeliverMessage,
        r: Step<DeliveryOutcome>,
    ) -> bool {
        &&& n.id == before.info.id ==> {
            &&& op.store is Some
            &&& StoreOp::started(
                before,
                after,
                key,
                value,
                op.store->Some_0,
                if op.phase is Storing { Step::<()>::Call(r->Call_0) } else { Step::<()>::Done(()) },
            )
            &&& op.phase is Storing ==> r is Call
            &&& op.phase !is Storing ==> op.phase is Done && r matches Step::Done(DeliveryOutcome::Delivered)
        }
        &&& n.id != before.info.id ==> after == before && op.phase is Sending && crate::maintenance::store_call(r, n, key, value)
    }

    fn route(&mut self, node: &mut ChordNode, n: NodeInfo) -> (r: Step<DeliveryOutcome>)
        requires
            old(node).wf(),
            old(self).search.inv(),
        ensures
            final(node).wf(),
            final(self).inv(),
            final(self).key == old(self).key,
            final(self).value == old(self).value,
            final(self).search == old(self).search,
            final(node).info == old(node).info,
            DeliverMessage::routed(old(self).key, old(self).value@, *old(node), *final(node), n, *final(self), r),
    {
        if same_id(&n.id, &node.info.id) {
            let value = crate::store::copy_bytes(&self.value);
            let (op, st) = StoreOp::begin(node, self.key, value);
            self.store = Some(op);
            match st {
                Step::Call(c) => {
                    self.phase = DeliveryPhase::Storing;
                    Step::Call(c)
                },
                Step::Done(()) => {
                    self.phase = DeliveryPhase::Done;
                    Step::Done(DeliveryOutcome::Delivered)
                },
            }
        } else {
            self.phase = DeliveryPhase::Sending;
            Step::Call(NodeCall {
                address: n.address.clone(),
                message: DhtMessage::Store { key: self.key, value: crate::store::copy_bytes(&self.value) },
            })
        }
    }

    /// Starts delivering `stored`, a serialized message, to the holder of the public key
    /// `to`: the successor of the key's hash is searched for, and the message goes to
    /// it.
    pub fn begin(node: &mut ChordNode, to: &str, stored: Vec<u8>) -> (r: (DeliverMessage, Step<DeliveryOutcome>))
        requires
            old(node).wf(),
        ensures
            final(node).wf(),
            r.0.inv(),
            r.0.key@ == sha1_of(encode_utf8(to@)),
            r.0.value@ == stored@,
            final(node).info == old(node).info,
            search_started(*old(node), r.0.key, r.0.search, search_step(r.0.phase is Locating, r.1, r.0.search.answer)),
            r.0.phase is Locating ==> r.1 is Call && *final(node) == *old(node),
            r.0.phase !is Locating ==> DeliverMessage::routed(r.0.key, stored@, *old(node), *final(node), r.0.search.answer, r.0, r.1),
            is_alone(*old(node)) ==> (r.1 matches Step::Done(DeliveryOutcome::Delivered) && final(node).data@
                == old(node).data@.insert(r.0.key, values_at(old(node).data@, r.0.key).push(stored@))),
    {
        let ghost value = stored@;
        let key = generate_key(to);
        let (search, st) = SuccessorSearch::begin(node, key);
        let mut op = DeliverMessage { key, value: stored, phase: DeliveryPhase::Locating, search, store: None };
        let r = match st {
            Step::Call(c) => Step::Call(c),
            Step::Done(n) => op.route(node, n),
        };
        proof {
            if is_alone(*old(node)) {
                lemma_alone_search(*old(node), key, op.search, search_step(op.phase is Locating, r, op.search.answer));
                let rs = if op.phase is Storing { Step::<()>::Call(r->Call_0) } else { Step::<()>::Done(()) };
                crate::storage::lemma_alone_store(*old(node), *node, key, value, op.store->Some_0, rs);
            }
        }
        (op, r)
    }

    /// Goes on after `event`.
    pub fn step(&mut self, node: &mut ChordNode, event: Event) -> (r: Step<DeliveryOutcome>)
        requires
            old(node).wf(),
            old(self).inv(),
        ensures
            final(node).wf(),
            final(self).inv(),
            final(self).key == old(self).key,
            final(self).value == old(self).value,
            final(node).info == old(node).info,
            old(self).phase is Locating ==> {
                &&& old(self).search.stepped(*old(node), event, final(self).search, search_step(final(self).phase is Locating, r, final(self).search.answer))
                &&& final(self).phase is Locating ==> r is Call && *final(node) == *old(node)
                &&& final(self).phase !is Locating ==> DeliverMessage::routed(
                    old(self).key,
                    old(self).value@,
                    *old(node),
                    *final(node),
                    final(self).search.answer,
                    *final(self),
                    r,
                )
            },
            old(self).phase is Storing ==> {
                &&& *final(node) == *old(node)
                &&& final(self).store is Some
                &&& old(self).store->Some_0.stepped(
                    *old(node),
                    event,
                    final(self).store->Some_0,
                    if final(self).phase is Storing { Step::<()>::Call(r->Call_0) } else { Step::<()>::Done(()) },
                )
                &&& final(self).phase is Storing ==> r is Call
                &&& final(self).phase !is Storing ==> final(self).phase is Done && r matches Step::Done(DeliveryOutcome::Delivered)
            },
            old(self).phase is Sending ==> *final(node) == *old(node) && match event {
                Event::Reply(_) => r matches Step::Done(DeliveryOutcome::Delivered),
                Event::Failure => r matches Step::Done(DeliveryOutcome::Failed),
            },
            old(self).phase is Done ==> *final(node) == *old(node) && r matches Step::Done(DeliveryOutcome::Delivered),
    {
        match self.phase {
            DeliveryPhase::Locating => match self.search.step(node, event) {
                Step::Call(c) => Step::Call(c),
                Step::Done(n) => self.route(node, n),
            },
            DeliveryPhase::Storing => {
                let mut op = self.store.take().unwrap();
                let st = op.step(node, event);
                self.store = Some(op);
                match st {
                    Step::Call(c) => Step::Call(c),
                    Step::Done(()) => {
                        self.phase = DeliveryPhase::Done;
                        Step::Done(DeliveryOutcome::Delivered)
                    },
                }
            },
            DeliveryPhase::Sending => {
                self.phase = DeliveryPhase::Done;
                match event {
                    Event::Reply(_) => Step::Done(DeliveryOutcome::Delivered),
                    Event::Failure => Step::Done(DeliveryOutcome::Failed),
                }
            },
            DeliveryPhase::Done => Step::Done(DeliveryOutcome::Delivered),
        }
    }
}

/// What a poll gets: refused, or the serialized messages stored for the key.
pub enum PollOutcome {
    Unauthorized,
    Messages(Vec<Vec<u8>>),
}

/// Where a poll waits.
pub enum PollPhase {
    Locating,
    Retrieving,
    Asking,
    Done,
}

/// Reading the messages stored for a public key, once its challenge is answered: they
/// come from this node when it is responsible for the key's hash, else from the
/// responsible node.
pub struct PollMessages {
    pub key: NodeId,
    pub phase: PollPhase,
    pub search: SuccessorSearch,
    pub retrieve: Option<RetrieveOp>,
}

/// Whether `m` holds the values `v`, or nothing when there are none.
pub open spec fn unwrapped(v: Option<Vec<Vec<u8>>>, m: Vec<Vec<u8>>) -> bool {
    match v {
        Some(x) => m == x,
        None => m@.len() == 0,
    }
}

impl PollMessages {
    pub open spec fn inv(&self) -> bool {
        &&& self.search.inv()
        &&& self.phase is Retrieving ==> self.retrieve is Some && self.retrieve->Some_0.inv()
    }

    /// How a poll for `key` goes on once the node responsible for the key, `n`, is
    /// known: on this node the values are retrieved as by `RetrieveOp`; elsewhere `n` is
    /// asked for them. The poll becomes `op` and takes the step `r`.
    pub open spec fn routed(key: NodeId, node: ChordNode, n: NodeInfo, op: PollMessages, r: Step<PollOutcome>) -> bool {
        &&& n.id == node.info.id ==> {
            &&& op.retrieve is Some
            &&& op.phase is Retrieving ==> r is Call && RetrieveOp::started(
                node,
                key,
                op.retrieve->Some_0,
                Step::Call(r->Call_0),
            )
            &&& op.phase !is Retrieving ==> op.phase is Done && exists|v: Option<Vec<Vec<u8>>>|
                #[trigger] RetrieveOp::started(node, key, op.retrieve->Some_0, Step::Done(v))
                    && (r matches Step::Done(PollOutcome::Messages(m)) && unwrapped(v, m))
        }
        &&& n.id == node.info.id && node.data@.dom().contains(key) ==> (r matches Step::Done(PollOutcome::Messages(v))
            && byte_lists(v@) == node.data@[key])
        &&& n.id != node.info.id ==> op.phase is Asking && r == call_to::<PollOutcome>(n, DhtMessage::Retrieve { key })
    }

    fn route(&mut self, node: &ChordNode, n: NodeInfo) -> (r: Step<PollOutcome>)
        requires
            node.wf(),
            old(self).search.inv(),
        ensures
            final(self).inv(),
            final(self).key == old(self).key,
            final(self).search == old(self).search,
            PollMessages::routed(old(self).key, *node, n, *final(self), r),
    {
        if same_id(&n.id, &node.info.id) {
            let (op, st) = RetrieveOp::begin(node, self.key);
            self.retrieve = Some(op);
            match st {
                Step::Call(c) => {
                    self.phase = PollPhase::Retrieving;
                    Step::Call(c)
                },
                Step::Done(v) => {
                    self.phase = PollPhase::Done;
                    let ghost gv = v;
                    let m = unwrap_values(v);
                    assert(RetrieveOp::started(*node, self.key, self.retrieve->Some_0, Step::Done(gv)));
                    Step::Done(PollOutcome::Messages(m))
                },
            }
        } else {
            self.phase = PollPhase::Asking;
            Step::Call(NodeCall { address: n.address.clone(), message: DhtMessage::Retrieve { key: self.key } })
        }
    }

    /// Starts a poll by the holder of `public_key`, answering its challenge with `nonce`
    /// and `signature`. A poll whose challenge answer fails is refused, and the
    /// challenge of a poll that is let in is used up; the messages are then looked
    /// for on the successor of the key's hash.
    pub fn begin(
        node: &ChordNode,
        book: &mut ChallengeBook,
        public_key: String,
        nonce: Vec<u8>,
        signature: Vec<u8>,
    ) -> (r: (PollMessages, Step<PollOutcome>))
        requires
            node.wf(),
            old(book).wf(),
        ensures
            final(book).wf(),
            r.0.inv(),
            ({
                let valid = answers_challenge(old(book)@, public_key@, nonce@, signature@);
                &&& !valid ==> (r.1 matches Step::Done(PollOutcome::Unauthorized) && final(book)@ == old(book)@)
                &&& valid ==> final(book)@ == old(book)@.remove(public_key@) && r.0.key@ == sha1_of(
                    encode_utf8(public_key@),
                ) && !(r.1 matches Step::Done(PollOutcome::Unauthorized))
                &&& valid ==> search_started(*node, r.0.key, r.0.search, search_step(r.0.phase is Locating, r.1, r.0.search.answer))
                &&& valid && r.0.phase is Locating ==> r.1 is Call
                &&& valid && r.0.phase !is Locating ==> PollMessages::routed(r.0.key, *node, r.0.search.answer, r.0, r.1)
                &&& valid && is_alone(*node) ==> (r.1 matches Step::Done(PollOutcome::Messages(m)) && byte_lists(m@)
                    == values_at(node.data@, r.0.key))
            }),
    {
        let valid = book.redeem(&public_key, &nonce, &signature);
        let key = generate_key(public_key.as_str());
        let (search, st) = SuccessorSearch::begin(node, key);
        let mut op = PollMessages { key, phase: PollPhase::Done, search, retrieve: None };
        if !valid {
            return (op, Step::Done(PollOutcome::Unauthorized));
        }
        let r = match st {
            Step::Call(c) => {
                op.phase = PollPhase::Locating;
                Step::Call(c)
            },
            Step::Done(n) => op.route(node, n),
        };
        proof {
            if is_alone(*node) {
                lemma_alone_search(*node, key, op.search, search_step(op.phase is Locating, r, op.search.answer));
                if !node.data@.dom().contains(key) {
                    if op.phase is Retrieving {
                        crate::storage::lemma_alone_retrieve(*node, key, op.retrieve->Some_0, Step::Call(r->Call_0));
                    } else {
                        let v = choose|v: Option<Vec<Vec<u8>>>|
                            #[trigger] RetrieveOp::started(*node, key, op.retrieve->Some_0, Step::Done(v))
                                && (r matches Step::Done(PollOutcome::Messages(m)) && unwrapped(v, m));
                        crate::storage::lemma_alone_retrieve(*node, key, op.retrieve->Some_0, Step::Done(v));
                        assert(r->Done_0->Messages_0@ =~= Seq::<Vec<u8>>::empty());
                        assert(byte_lists(r->Done_0->Messages_0@) =~= Seq::<Seq<u8>>::empty());
                    }
                }
            }
        }
        (op, r)
    }

    /// Goes on after `event`; an answer without values gives no messages.
    pub fn step(&mut self, node: &ChordNode, event: Event) -> (r: Step<PollOutcome>)
        requires
            node.wf(),
            old(self).inv(),
        ensures
            final(self).inv(),
            final(self).key == old(self).key,
            old(self).phase is Locating ==> {
                &&& old(self).search.stepped(*node, event, final(self).search, search_step(final(self).phase is Locating, r, final(self).search.answer))
                &&& final(self).phase is Locating ==> r is Call
                &&& final(self).phase !is Locating ==> PollMessages::routed(old(self).key, *node, final(self).search.answer, *final(self), r)
            },
            old(self).phase is Retrieving ==> {
                &&& final(self).retrieve is Some
                &&& final(self).phase is Retrieving ==> r is Call && old(self).retrieve->Some_0.stepped(
                    *node,
                    event,
                    final(self).retrieve->Some_0,
                    Step::Call(r->Call_0),
                )
                &&& final(self).phase !is Retrieving ==> final(self).phase is Done && exists|v: Option<Vec<Vec<u8>>>|
                    #[trigger] old(self).retrieve->Some_0.stepped(*node, event, final(self).retrieve->Some_0, Step::Done(v))
                        && (r matches Step::Done(PollOutcome::Messages(m)) && unwrapped(v, m))
            },
            old(self).phase is Asking ==> match event {
                Event::Reply(DhtMessage::Retrieved { value: Some(v), .. }) => r matches Step::Done(
                    PollOutcome::Messages(m),
                ) && byte_lists(m@) == byte_lists(v@),
                _ => r matches Step::Done(PollOutcome::Messages(m)) && m@.len() == 0,
            },
            old(self).phase is Done ==> (r matches Step::Done(PollOutcome::Messages(m)) && m@.len() == 0),
            r matches Step::Done(o) ==> o is Messages,
    {
        match self.phase {
            PollPhase::Locating => match self.search.step(node, event) {
                Step::Call(c) => Step::Call(c),
                Step::Done(n) => self.route(node, n),
            },
            PollPhase::Retrieving => {
                let mut op = self.retrieve.take().unwrap();
                let ghost before = op;
                let st = op.step(node, event);
                self.retrieve = Some(op);
                match st {
                    Step::Call(c) => Step::Call(c),
                    Step::Done(v) => {
                        self.phase = PollPhase::Done;
                        let ghost gv = v;
                        let m = unwrap_values(v);
                        assert(before.stepped(*node, event, self.retrieve->Some_0, Step::Done(gv)));
                        Step::Done(PollOutcome::Messages(m))
                    },
                }
            },
            PollPhase::Asking => {
                self.phase = PollPhase::Done;
                match event {
                    Event::Reply(DhtMessage::Retrieved { value, .. }) => Step::Done(PollOutcome::Messages(unwrap_values(value))),
                    _ => Step::Done(PollOutcome::Messages(Vec::new())),
                }
            },
            PollPhase::Done => Step::Done(PollOutcome::Messages(Vec::new())),
        }
    }
}

/// The values, or none.
fn unwrap_values(v: Option<Vec<Vec<u8>>>) -> (r: Vec<Vec<u8>>)
    ensures
        v matches Some(x) ==> r == x,
        v is None ==> r@.len() == 0,
{
    match v {
        Some(x) => x,
        None => Vec::new(),
    }
}

/// One of `candidates` picked at random (`SliceRandom::choose` with `thread_rng`), by
/// reference; none when there are no candidates. Which one is picked is chance.
#[verifier::external_body]
fn choose_peer<'a>(candidates: &'a Vec<NodeInfo>) -> (r: Option<&'a NodeInfo>)
    ensures
        r is None <==> candidates@.len() == 0,
        r matches Some(p) ==> exists|k: int| 0 <= k < candidates@.len() && #[trigger] candidates@[k] == *p,
{
    rand::seq::SliceRandom::choose(candidates.as_slice(), &mut rand::thread_rng())
}

/// The peer this node shares its metrics with: none when it is alone, else one of
/// its gossip candidates (the successor and the other fingers), picked at random.
pub fn pick_gossip_peer(node: &ChordNode) -> (r: Option<NodeInfo>)
    ensures
        node.successor.id == node.info.id ==> r is None,
        node.successor.id != node.info.id ==> (r matches Some(p) && exists|c: Seq<NodeInfo>, k: int|
            {
                &&& is_first_occurrences_of(c, seq![node.successor] + node.finger_table@, seq![node.info.id])
                &&& 0 <= k < c.len()
                &&& #[trigger] c[k].id == p.id
                &&& c[k].address@ == p.address@
                &&& c[k].api_address@ == p.api_address@
            }),
{
    let candidates = node.gossip_candidates();
    proof {
        if node.successor.id != node.info.id {
            let pool = seq![node.successor] + node.finger_table@;
            let excl = seq![node.info.id];
            assert(pool[0] == node.successor);
            assert(first_with_id(pool, 0));
            assert(!id_listed(excl, pool[0].id)) by {
                if id_listed(excl, pool[0].id) {
                    let k = choose|k: int| 0 <= k < excl.len() && excl[k] == pool[0].id;
                    assert(excl[k] == node.info.id);
                }
            }
            assert(candidates@.len() > 0);
        }
    }
    match choose_peer(&candidates) {
        None => None,
        Some(p) => {
            let copy = p.copied();
            proof {
                let k = choose|k: int| 0 <= k < candidates@.len() && #[trigger] candidates@[k] == *p;
                assert(candidates@[k].id == copy.id);
            }
            Some(copy)
        },
    }
}

} // verus!
