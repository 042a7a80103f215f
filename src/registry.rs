//! The directory of live sessions, by identifier, and the lookups that the
//! session operations make in it. The registry itself is sequential: the
//! process keeps it behind a lock that is held for one of these operations
//! and never across a session's I/O.
//!
//! Sessions are kept in a vector of pairs rather than a `HashMap`: vstd
//! specifies `HashMap` only for keys whose hashing and equality it models,
//! which a `String` key is not, so a map keyed by text would prove nothing
//! about lookups. The vector carries the map's promise (one entry per key) as
//! an invariant.

use vstd::prelude::*;
use crate::size::{size_verdict, validate_pty_size};

verus! {

/// The message for an identifier that names no live session.
pub open spec fn not_found_message(id: Seq<char>) -> Seq<char> {
    "Session not found: "@ + id
}

/// The message for an identifier that is already taken.
pub open spec fn duplicate_message(id: Seq<char>) -> Seq<char> {
    "Session already exists: "@ + id
}

/// Whether a character is a lower-case hexadecimal digit.
pub open spec fn is_lower_hex(c: char) -> bool {
    ('0' <= c <= '9') || ('a' <= c <= 'f')
}

/// The text of a random (version 4) UUID in hyphenated lower-case form.
pub open spec fn is_uuid_v4_text(s: Seq<char>) -> bool {
    &&& s.len() == 36
    &&& forall|i: int|
        0 <= i < 36 ==> if i == 8 || i == 13 || i == 18 || i == 23 {
            #[trigger] s[i] == '-'
        } else {
            is_lower_hex(s[i])
        }
    &&& s[14] == '4'
    &&& (s[19] == '8' || s[19] == '9' || s[19] == 'a' || s[19] == 'b')
}

/// The lower-case hexadecimal digit of a value below 16.
pub open spec fn hex_digit(n: u8) -> char {
    if n < 10 {
        (48 + n) as char
    } else {
        (87 + n) as char
    }
}

/// Byte `i` of a random UUID built from `b`: byte 6 carries the version (4)
/// in its high half, byte 8 the variant (binary 10) in its top bits.
pub open spec fn v4_byte(b: Seq<u8>, i: int) -> u8 {
    if i == 6 {
        (b[6] & 0x0f) | 0x40
    } else if i == 8 {
        (b[8] & 0x3f) | 0x80
    } else {
        b[i]
    }
}

/// Hex digit `k` (of 32) of that UUID, high half of each byte first.
pub open spec fn v4_nibble(b: Seq<u8>, k: int) -> u8 {
    if k % 2 == 0 {
        v4_byte(b, k / 2) >> 4
    } else {
        v4_byte(b, k / 2) & 0x0f
    }
}

/// Which hex digit stands at position `i` of the hyphenated text.
pub open spec fn hex_position(i: int) -> int {
    if i < 8 {
        i
    } else if i < 13 {
        i - 1
    } else if i < 18 {
        i - 2
    } else if i < 23 {
        i - 3
    } else {
        i - 4
    }
}

/// Whether position `i` of the hyphenated text holds a hyphen.
pub open spec fn is_hyphen_position(i: int) -> bool {
    i == 8 || i == 13 || i == 18 || i == 23
}

/// The hyphenated lower-case text of the random UUID built from 16 bytes.
pub open spec fn uuid_v4_text_of(b: Seq<u8>) -> Seq<char> {
    Seq::new(
        36,
        |i: int|
            if is_hyphen_position(i) {
                '-'
            } else {
                hex_digit(v4_nibble(b, hex_position(i)))
            },
    )
}

/// Relies on getrandom::fill, which fills the buffer from the system's random
/// source or reports that it could not.
#[verifier::external_body]
fn random_bytes() -> (r: Option<[u8; 16]>) {
    let mut bytes = [0u8; 16];
    match getrandom::fill(&mut bytes) {
        Ok(()) => Some(bytes),
        Err(_) => None,
    }
}

/// Relies on uuid::Builder::from_random_bytes, which keeps the bytes but for
/// the version and variant bits, and on Uuid's Display, which writes the 32
/// hex digits in lower case with hyphens after the 8th, 12th, 16th and 20th.
#[verifier::external_body]
fn uuid_v4_text(bytes: [u8; 16]) -> (r: String)
    ensures
        r@ == uuid_v4_text_of(bytes@),
{
    uuid::Builder::from_random_bytes(bytes).into_uuid().to_string()
}

proof fn lemma_nibbles(x: u8)
    ensures
        x >> 4 < 16,
        x & 0x0f < 16,
        ((x & 0x0f) | 0x40) >> 4 == 4,
        8 <= ((x & 0x3f) | 0x80) >> 4 <= 11,
{
    assert(x >> 4 < 16) by (bit_vector);
    assert(x & 0x0f < 16) by (bit_vector);
    assert(((x & 0x0f) | 0x40) >> 4 == 4) by (bit_vector);
    assert(8 <= ((x & 0x3f) | 0x80) >> 4 <= 11) by (bit_vector);
}

/// The text of a random UUID has the shape of one, whatever the bytes.
pub proof fn lemma_uuid_v4_text_shape(b: Seq<u8>)
    requires
        b.len() == 16,
    ensures
        is_uuid_v4_text(uuid_v4_text_of(b)),
{
    let t = uuid_v4_text_of(b);
    assert forall|i: int| 0 <= i < 36 implies if i == 8 || i == 13 || i == 18 || i == 23 {
        #[trigger] t[i] == '-'
    } else {
        is_lower_hex(t[i])
    } by {
        if !is_hyphen_position(i) {
            let k = hex_position(i);
            lemma_nibbles(v4_byte(b, k / 2));
        }
    }
    lemma_nibbles(b[6]);
    lemma_nibbles(b[8]);
    assert(t[14] == hex_digit(v4_nibble(b, 12)));
    assert(t[19] == hex_digit(v4_nibble(b, 16)));
}

/// The message when no random identifier could be drawn.
pub open spec fn no_randomness_message() -> Seq<char> {
    "Failed to draw a session id: no random bytes"@
}

fn not_found_error(id: &str) -> (r: String)
    ensures
        r@ == not_found_message(id@),
{
    let mut s = String::from_str("Session not found: ");
    s.append(id);
    s
}

fn duplicate_error(id: &str) -> (r: String)
    ensures
        r@ == duplicate_message(id@),
{
    let mut s = String::from_str("Session already exists: ");
    s.append(id);
    s
}

/// Live sessions by identifier. Each identifier appears at most once, and no
/// identifier is ever registered twice: the registry remembers every
/// identifier it has held (36 bytes each), so that one of a closed session
/// stays invalid for good.
pub struct SessionRegistry<T> {
    entries: Vec<(String, T)>,
    issued: Vec<String>,
}

impl<T> View for SessionRegistry<T> {
    type V = Map<Seq<char>, T>;

    closed spec fn view(&self) -> Map<Seq<char>, T> {
        Map::new(
            |k: Seq<char>| exists|i: int| 0 <= i < self.entries@.len() && #[trigger] self.entries@[i].0@ == k,
            |k: Seq<char>|
                self.entries@[choose|i: int| 0 <= i < self.entries@.len() && #[trigger] self.entries@[i].0@ == k].1,
        )
    }
}

impl<T> SessionRegistry<T> {
    /// Every identifier ever registered, live or closed.
    pub closed spec fn used(&self) -> Set<Seq<char>> {
        Set::new(|k: Seq<char>| exists|j: int| 0 <= j < self.issued@.len() && #[trigger] self.issued@[j]@ == k)
    }

    /// No identifier is held twice, and every live one is among those used.
    pub closed spec fn wf(&self) -> bool {
        &&& forall|i: int, j: int|
            0 <= i < self.entries@.len() && 0 <= j < self.entries@.len() && i != j
                ==> #[trigger] self.entries@[i].0@ != #[trigger] self.entries@[j].0@
        &&& forall|i: int| 0 <= i < self.entries@.len() ==> self.used().contains(#[trigger] self.entries@[i].0@)
    }

    /// A live identifier is one that was used.
    pub proof fn lemma_live_ids_used(&self, id: Seq<char>)
        requires
            self.wf(),
            self@.contains_key(id),
        ensures
            self.used().contains(id),
    {
        let i = choose|i: int| 0 <= i < self.entries@.len() && #[trigger] self.entries@[i].0@ == id;
        assert(self.used().contains(self.entries@[i].0@));
    }

    fn was_used(&self, id: &str) -> (r: bool)
        ensures
            r == self.used().contains(id@),
    {
        let key = id.to_owned();
        let mut i: usize = 0;
        while i < self.issued.len()
            invariant
                i <= self.issued@.len(),
                key@ == id@,
                forall|j: int| 0 <= j < i ==> #[trigger] self.issued@[j]@ != id@,
            decreases self.issued@.len() - i,
        {
            if self.issued[i] == key {
                assert(self.used().contains(id@));
                return true;
            }
            i = i + 1;
        }
        false
    }

    proof fn lemma_entry(&self, i: int)
        requires
            self.wf(),
            0 <= i < self.entries@.len(),
        ensures
            self@.contains_key(self.entries@[i].0@),
            self@[self.entries@[i].0@] == self.entries@[i].1,
    {
        let k = self.entries@[i].0@;
        assert(self@.contains_key(k));
        let c = choose|c: int| 0 <= c < self.entries@.len() && #[trigger] self.entries@[c].0@ == k;
        assert(c == i);
    }

    /// An empty registry.
    pub fn new() -> (r: Self)
        ensures
            r.wf(),
            r@ == Map::<Seq<char>, T>::empty(),
            r.used() == Set::<Seq<char>>::empty(),
    {
        let r = SessionRegistry { entries: Vec::new(), issued: Vec::new() };
        assert(r@ =~= Map::<Seq<char>, T>::empty());
        assert(r.used() =~= Set::<Seq<char>>::empty());
        r
    }

    /// Whether no session is registered.
    pub fn is_empty(&self) -> (r: bool)
        requires
            self.wf(),
        ensures
            r <==> self@ == Map::<Seq<char>, T>::empty(),
    {
        if self.entries.len() == 0 {
            assert(self@ =~= Map::<Seq<char>, T>::empty());
            true
        } else {
            proof {
                self.lemma_entry(0);
            }
            false
        }
    }

    fn find(&self, id: &str) -> (r: Option<usize>)
        requires
            self.wf(),
        ensures
            match r {
                Some(i) => i < self.entries@.len() && self.entries@[i as int].0@ == id@,
                None => !self@.contains_key(id@),
            },
    {
        let key = id.to_owned();
        let mut i: usize = 0;
        while i < self.entries.len()
            invariant
                i <= self.entries@.len(),
                key@ == id@,
                forall|j: int| 0 <= j < i ==> #[trigger] self.entries@[j].0@ != id@,
            decreases self.entries@.len() - i,
        {
            if self.entries[i].0 == key {
                return Some(i);
            }
            i = i + 1;
        }
        None
    }

    /// Whether `id` names a registered session.
    pub fn contains(&self, id: &str) -> (r: bool)
        requires
            self.wf(),
        ensures
            r == self@.contains_key(id@),
    {
        match self.find(id) {
            Some(i) => {
                proof {
                    self.lemma_entry(i as int);
                }
                true
            },
            None => false,
        }
    }

    /// The session that `id` names, if any.
    pub fn get(&self, id: &str) -> (r: Option<&T>)
        requires
            self.wf(),
        ensures
            match r {
                Some(v) => self@.contains_key(id@) && *v == self@[id@],
                None => !self@.contains_key(id@),
            },
    {
        match self.find(id) {
            Some(i) => {
                proof {
                    self.lemma_entry(i as int);
                }
                Some(&self.entries[i].1)
            },
            None => None,
        }
    }

    /// The session that `id` names, or the "Session not found" error.
    pub fn lookup(&self, id: &str) -> (r: Result<&T, String>)
        requires
            self.wf(),
        ensures
            match r {
                Ok(v) => self@.contains_key(id@) && *v == self@[id@],
                Err(e) => !self@.contains_key(id@) && e@ == not_found_message(id@),
            },
    {
        match self.get(id) {
            Some(v) => Ok(v),
            None => Err(not_found_error(id)),
        }
    }

    /// Registers `value` under `id`. Fails, and changes nothing, when `id` is
    /// live or was used before.
    pub fn insert(&mut self, id: String, value: T) -> (r: Result<(), String>)
        requires
            old(self).wf(),
        ensures
            final(self).wf(),
            old(self).used().contains(id@) ==> (final(self)@ == old(self)@ && final(self).used()
                == old(self).used() && (r matches Err(e) && e@ == duplicate_message(id@))),
            !old(self).used().contains(id@) ==> (final(self)@ == old(self)@.insert(id@, value)
                && final(self).used() == old(self).used().insert(id@) && r is Ok),
    {
        if self.was_used(id.as_str()) {
            return Err(duplicate_error(id.as_str()));
        }
        let ghost before = self.entries@;
        let ghost old_map = self@;
        let ghost old_used = self.used();
        let ghost old_issued = self.issued@;
        let ghost k = id@;
        proof {
            if old_map.contains_key(k) {
                self.lemma_live_ids_used(k);
            }
        }
        self.issued.push(id.clone());
        self.entries.push((id, value));
        proof {
            assert forall|q: Seq<char>| #[trigger] self.used().contains(q) <==> old_used.insert(k).contains(q) by {
                if old_used.contains(q) {
                    let j = choose|j: int| 0 <= j < old_issued.len() && #[trigger] old_issued[j]@ == q;
                    assert(self.issued@[j] == old_issued[j]);
                }
                if self.used().contains(q) && q != k {
                    let j = choose|j: int| 0 <= j < self.issued@.len() && #[trigger] self.issued@[j]@ == q;
                    assert(j < old_issued.len());
                    assert(self.issued@[j] == old_issued[j]);
                }
                if q == k {
                    assert(self.issued@[old_issued.len() as int]@ == k);
                }
            }
            assert(self.used() =~= old_used.insert(k));
            assert forall|i: int| 0 <= i < self.entries@.len() implies self.used().contains(#[trigger] self.entries@[i].0@) by {
                if i < before.len() {
                    assert(self.entries@[i] == before[i]);
                    assert(old_used.contains(before[i].0@));
                }
            }
            let n = before.len() as int;
            assert forall|a: int, b: int|
                0 <= a < self.entries@.len() && 0 <= b < self.entries@.len() && a != b
                    implies #[trigger] self.entries@[a].0@ != #[trigger] self.entries@[b].0@ by {
                if a < n && b < n {
                    assert(self.entries@[a] == before[a]);
                    assert(self.entries@[b] == before[b]);
                } else if a == n {
                    assert(self.entries@[b] == before[b]);
                    if before[b].0@ == k {
                        assert(old_map.contains_key(k));
                    }
                } else {
                    assert(self.entries@[a] == before[a]);
                    if before[a].0@ == k {
                        assert(old_map.contains_key(k));
                    }
                }
            }
            assert forall|q: Seq<char>| #[trigger] self@.contains_key(q) <==> old_map.insert(k, value).contains_key(q) by {
                if old_map.contains_key(q) {
                    let c = choose|c: int| 0 <= c < before.len() && #[trigger] before[c].0@ == q;
                    assert(self.entries@[c] == before[c]);
                }
                if self@.contains_key(q) && q != k {
                    let c = choose|c: int| 0 <= c < self.entries@.len() && #[trigger] self.entries@[c].0@ == q;
                    assert(c < n);
                    assert(self.entries@[c] == before[c]);
                    assert(old_map.contains_key(q));
                }
                if q == k {
                    assert(self.entries@[n].0@ == k);
                }
            }
            assert forall|q: Seq<char>| #[trigger] self@.contains_key(q) implies self@[q] == old_map.insert(k, value)[q] by {
                if q == k {
                    self.lemma_entry(n);
                } else {
                    let c = choose|c: int| 0 <= c < self.entries@.len() && #[trigger] self.entries@[c].0@ == q;
                    self.lemma_entry(c);
                    assert(self.entries@[c] == before[c]);
                    assert(old_map.contains_key(q));
                    let c0 = choose|c0: int| 0 <= c0 < before.len() && #[trigger] before[c0].0@ == q;
                    assert(self.entries@[c0] == before[c0]);
                    assert(c0 == c);
                }
            }
            assert(self@ =~= old_map.insert(k, value));
        }
        Ok(())
    }

    /// Takes the session that `id` names out of the registry; `None`, and no
    /// change, when there is none.
    pub fn remove(&mut self, id: &str) -> (r: Option<T>)
        requires
            old(self).wf(),
        ensures
            final(self).wf(),
            final(self)@ == old(self)@.remove(id@),
            final(self).used() == old(self).used(),
            match r {
                Some(v) => old(self)@.contains_key(id@) && v == old(self)@[id@],
                None => !old(self)@.contains_key(id@),
            },
    {
        match self.find(id) {
            None => {
                assert(self@ =~= self@.remove(id@));
                None
            },
            Some(i) => {
                let ghost before = self.entries@;
                let ghost old_map = self@;
                proof {
                    self.lemma_entry(i as int);
                }
                let (_, v) = self.entries.remove(i);
                proof {
                    let n = before.len() as int;
                    let ii = i as int;
                    assert forall|a: int| 0 <= a < self.entries@.len() implies #[trigger] self.entries@[a]
                        == before[if a < ii { a } else { a + 1 }] by {}
                    assert forall|a: int, b: int|
                        0 <= a < self.entries@.len() && 0 <= b < self.entries@.len() && a != b
                            implies #[trigger] self.entries@[a].0@ != #[trigger] self.entries@[b].0@ by {
                        let a0 = if a < ii { a } else { a + 1 };
                        let b0 = if b < ii { b } else { b + 1 };
                        assert(self.entries@[a] == before[a0]);
                        assert(self.entries@[b] == before[b0]);
                    }
                    assert forall|a: int| 0 <= a < self.entries@.len() implies self.used().contains(
                        #[trigger] self.entries@[a].0@) by {
                        let a0 = if a < ii { a } else { a + 1 };
                        assert(self.entries@[a] == before[a0]);
                    }
                    assert forall|q: Seq<char>| #[trigger] self@.contains_key(q) <==> old_map.remove(id@).contains_key(q) by {
                        if self@.contains_key(q) {
                            let c = choose|c: int| 0 <= c < self.entries@.len() && #[trigger] self.entries@[c].0@ == q;
                            let c0 = if c < ii { c } else { c + 1 };
                            assert(self.entries@[c] == before[c0]);
                            assert(old_map.contains_key(q));
                            assert(c0 != ii);
                        }
                        if old_map.remove(id@).contains_key(q) {
                            let c0 = choose|c0: int| 0 <= c0 < before.len() && #[trigger] before[c0].0@ == q;
                            assert(c0 != ii);
                            let c = if c0 < ii { c0 } else { c0 - 1 };
                            assert(self.entries@[c] == before[c0]);
                        }
                    }
                    assert forall|q: Seq<char>| #[trigger] self@.contains_key(q) implies self@[q] == old_map.remove(id@)[q] by {
                        let c = choose|c: int| 0 <= c < self.entries@.len() && #[trigger] self.entries@[c].0@ == q;
                        let c0 = if c < ii { c } else { c + 1 };
                        assert(self.entries@[c] == before[c0]);
                        self.lemma_entry(c);
                        let c1 = choose|c1: int| 0 <= c1 < before.len() && #[trigger] before[c1].0@ == q;
                        assert(c1 == c0);
                    }
                    assert(self@ =~= old_map.remove(id@));
                }
                Some(v)
            },
        }
    }
    /// Takes a drawn identifier when it was never used, and refuses it with
    /// the "already exists" error when it is live or belonged to a closed
    /// session.
    pub fn accept_id(&self, id: String) -> (r: Result<String, String>)
        requires
            self.wf(),
        ensures
            !self.used().contains(id@) ==> (r matches Ok(s) && s@ == id@),
            self.used().contains(id@) ==> (r matches Err(e) && e@ == duplicate_message(id@)),
    {
        if self.was_used(id.as_str()) {
            Err(duplicate_error(id.as_str()))
        } else {
            Ok(id)
        }
    }

    /// The first step of creating a session: checks the geometry, then draws
    /// a random identifier and accepts it when it was never used. The geometry
    /// is checked before anything else; the draw fails when the system gives
    /// no random bytes.
    pub fn reserve_id(&self, cols: u16, rows: u16) -> (r: Result<String, String>)
        requires
            self.wf(),
        ensures
            size_verdict(cols, rows) is Err ==> match r {
                Ok(_) => false,
                Err(e) => size_verdict(cols, rows) == Err::<(), Seq<char>>(e@),
            },
            size_verdict(cols, rows) is Ok ==> match r {
                Ok(id) => is_uuid_v4_text(id@) && !self.used().contains(id@) && !self@.contains_key(id@),
                Err(e) => e@ == no_randomness_message() || exists|id: Seq<char>|
                    is_uuid_v4_text(id) && self.used().contains(id) && e@ == #[trigger] duplicate_message(id),
            },
    {
        validate_pty_size(cols, rows)?;
        let bytes = match random_bytes() {
            Some(b) => b,
            None => {
                return Err(String::from_str("Failed to draw a session id: no random bytes"));
            },
        };
        let id = uuid_v4_text(bytes);
        proof {
            lemma_uuid_v4_text_shape(bytes@);
        }
        let ghost drawn = id@;
        let r = self.accept_id(id);
        proof {
            if self@.contains_key(drawn) {
                self.lemma_live_ids_used(drawn);
            }
            if r is Err {
                assert(is_uuid_v4_text(drawn) && self.used().contains(drawn));
            }
        }
        r
    }

    /// The session to resize: checks the geometry first, whether or not `id`
    /// is registered, then looks `id` up.
    pub fn resize_target(&self, id: &str, cols: u16, rows: u16) -> (r: Result<&T, String>)
        requires
            self.wf(),
        ensures
            size_verdict(cols, rows) is Err ==> match r {
                Ok(_) => false,
                Err(e) => size_verdict(cols, rows) == Err::<(), Seq<char>>(e@),
            },
            size_verdict(cols, rows) is Ok ==> match r {
                Ok(v) => self@.contains_key(id@) && *v == self@[id@],
                Err(e) => !self@.contains_key(id@) && e@ == not_found_message(id@),
            },
    {
        match validate_pty_size(cols, rows) {
            Err(e) => Err(e),
            Ok(()) => self.lookup(id),
        }
    }
}

/// Closing a session right after creating it. `created` is what a successful
/// `insert` of `id` into `before` left, `closed` what `remove(id)` then left
/// (their ensures, as requires): the identifier names nothing, so a write or
/// resize on it is refused as not found, and it stays used, so it is never
/// accepted again.
pub proof fn lemma_closed_session_not_found<T>(
    before: SessionRegistry<T>,
    created: SessionRegistry<T>,
    closed: SessionRegistry<T>,
    id: Seq<char>,
    session: T,
)
    requires
        !before.used().contains(id),
        created@ == before@.insert(id, session),
        created.used() == before.used().insert(id),
        closed@ == created@.remove(id),
        closed.used() == created.used(),
    ensures
        created@.contains_key(id),
        !closed@.contains_key(id),
        closed.used().contains(id),
{
}

/// An identifier, once used, is never accepted again. Every operation keeps
/// the used identifiers (so `later.used()` includes those of `earlier`), and
/// `accept_id` and `reserve_id` only hand out identifiers that `later` has not
/// used.
pub proof fn lemma_closed_id_never_reused<T>(
    earlier: SessionRegistry<T>,
    later: SessionRegistry<T>,
    closed: Seq<char>,
    drawn: Seq<char>,
)
    requires
        earlier.used().contains(closed),
        earlier.used().subset_of(later.used()),
        !later.used().contains(drawn),
    ensures
        drawn != closed,
{
}

/// Two sessions created one after the other. `first` is what a successful
/// `insert` of `a` into `start` left and `second` what one of `b` into
/// `first` left (`b` unused there, as `reserve_id` guarantees); `without_a`
/// and `without_b` are what `remove` of either then leaves. The identifiers
/// differ, and closing either leaves the other registered with its own
/// session.
pub proof fn lemma_sessions_independent<T>(
    start: SessionRegistry<T>,
    first: SessionRegistry<T>,
    second: SessionRegistry<T>,
    without_a: SessionRegistry<T>,
    without_b: SessionRegistry<T>,
    a: Seq<char>,
    sa: T,
    b: Seq<char>,
    sb: T,
)
    requires
        !start.used().contains(a),
        first@ == start@.insert(a, sa),
        first.used() == start.used().insert(a),
        !first.used().contains(b),
        second@ == first@.insert(b, sb),
        without_a@ == second@.remove(a),
        without_b@ == second@.remove(b),
    ensures
        a != b,
        without_a@.contains_key(b),
        without_a@[b] == sb,
        without_b@.contains_key(a),
        without_b@[a] == sa,
{
    assert(first.used().contains(a));
}

} // verus!
