//! The client-authored transition vocabulary: a timestamped command
//! against an expected stream tip, and the command types themselves.

use vstd::prelude::*;
use crate::codec::{Codec, dec_u32_at, dec_u64_at, enc_u32, enc_u64, lemma_concat_split,
    lemma_u32_round_trip, lemma_u64_round_trip, lemma_u8_round_trip, dec_u8_at, enc_u8, read_u8,
    read_u64, write_u8, write_u64, enc_str, dec_str_at, lemma_str_round_trip, write_str, read_str,
    str_eq, enc_list, dec_list_at, lemma_list_round_trip, write_list, read_list, items_wf};
use crate::block::BlockHash;
use crate::ltime::SerializableTime;

verus! {

/// A command is a deterministic, total function over a stream's value
/// type. The transition is fixed at the model level by `processv`, so
/// replaying a history reproduces it exactly; `process` must realize it.
pub trait Command<T: Codec>: Codec {
    /// The transition this command denotes, on mathematical models.
    spec fn processv(cv: Self::V, input: T::V) -> Result<T::V, ()>;

    /// Apply the command to a value; the outcome is exactly the model
    /// transition applied to the models.
    fn process(self, input: T) -> (r: Result<T, ()>)
        ensures
            match (r, Self::processv(self.deep_view(), input.deep_view())) {
                (Ok(t), Ok(v)) => t.deep_view() == v,
                (Err(_), Err(_)) => true,
                _ => false,
            },
    ;
}

/// The client-authored transition: when it was made, what it does, and
/// the tip the client expected to extend.
#[derive(Debug)]
pub struct Update<C> {
    pub timestamp: SerializableTime,
    pub command: C,
    pub last: BlockHash,
}

/// Mathematical model of an `Update`.
pub ghost struct UpdateV<CV> {
    pub timestamp: u32,
    pub command: CV,
    pub last: Seq<u8>,
}

impl<C: DeepView> DeepView for Update<C> {
    type V = UpdateV<C::V>;

    open spec fn deep_view(&self) -> UpdateV<C::V> {
        UpdateV {
            timestamp: self.timestamp@,
            command: self.command.deep_view(),
            last: self.last@,
        }
    }
}

impl<C: Codec> Codec for Update<C> {
    open spec fn encv(v: UpdateV<C::V>) -> Seq<u8> {
        enc_u32(v.timestamp) + C::encv(v.command) + BlockHash::encv(v.last)
    }

    open spec fn encv_wf(v: UpdateV<C::V>) -> bool {
        C::encv_wf(v.command) && v.last.len() == 32
    }

    open spec fn decv_at(b: Seq<u8>, i: int) -> Option<(UpdateV<C::V>, int)> {
        match dec_u32_at(b, i) {
            Some((ts, j)) => match C::decv_at(b, j) {
                Some((cv, k)) => match BlockHash::decv_at(b, k) {
                    Some((h, l)) => Some((UpdateV { timestamp: ts, command: cv, last: h }, l)),
                    None => None,
                },
                None => None,
            },
            None => None,
        }
    }

    proof fn lemma_round_trip(v: UpdateV<C::V>, b: Seq<u8>, i: int) {
        let e1 = enc_u32(v.timestamp);
        let e2 = C::encv(v.command);
        let e3 = BlockHash::encv(v.last);
        assert(Self::encv(v) =~= e1 + (e2 + e3));
        lemma_concat_split(b, i, e1, e2 + e3);
        lemma_u32_round_trip(v.timestamp, b, i);
        lemma_concat_split(b, i + 4, e2, e3);
        C::lemma_round_trip(v.command, b, i + 4);
        assert(b.subrange(i + 4 + e2.len(), i + 4 + e2.len() + 32) == e3);
    }

    fn encode_to(&self, out: &mut Vec<u8>) {
        self.timestamp.encode_to(out);
        self.command.encode_to(out);
        self.last.encode_to(out);
        assert(out@ =~= old(out)@ + Self::encv(self.deep_view()));
    }

    fn decode_at(b: &[u8], i: usize) -> (r: Option<(Update<C>, usize)>) {
        match SerializableTime::decode_at(b, i) {
            Some((ts, j)) => match C::decode_at(b, j) {
                Some((cv, k)) => match BlockHash::decode_at(b, k) {
                    Some((h, l)) => Some((Update { timestamp: ts, command: cv, last: h }, l)),
                    None => None,
                },
                None => None,
            },
            None => None,
        }
    }
}

/// The value type used by the self-test stream: one counter.
#[derive(Debug, Clone, Copy, PartialEq, Eq, Structural)]
pub struct TestObject(pub u64);

impl Default for TestObject {
    fn default() -> (r: TestObject)
        ensures
            r.0 == 0,
    {
        TestObject(0)
    }
}

impl DeepView for TestObject {
    type V = u64;

    open spec fn deep_view(&self) -> u64 {
        self.0
    }
}

impl Codec for TestObject {
    open spec fn encv(v: u64) -> Seq<u8> {
        enc_u64(v)
    }

    open spec fn encv_wf(v: u64) -> bool {
        true
    }

    open spec fn decv_at(b: Seq<u8>, i: int) -> Option<(u64, int)> {
        dec_u64_at(b, i)
    }

    proof fn lemma_round_trip(v: u64, b: Seq<u8>, i: int) {
        lemma_u64_round_trip(v, b, i);
    }

    fn encode_to(&self, out: &mut Vec<u8>) {
        write_u64(out, self.0);
    }

    fn decode_at(b: &[u8], i: usize) -> (r: Option<(TestObject, usize)>) {
        match read_u64(b, i) {
            Some((x, j)) => Some((TestObject(x), j)),
            None => None,
        }
    }
}

/// The command family of the self-test stream: add to the counter.
#[derive(Debug, Clone, Copy, PartialEq, Eq, Structural)]
pub enum TestCommand {
    Add(u64),
}

impl DeepView for TestCommand {
    type V = TestCommand;

    open spec fn deep_view(&self) -> TestCommand {
        *self
    }
}

impl Codec for TestCommand {
    open spec fn encv(v: TestCommand) -> Seq<u8> {
        match v {
            TestCommand::Add(y) => enc_u8(0) + enc_u64(y),
        }
    }

    open spec fn encv_wf(v: TestCommand) -> bool {
        true
    }

    open spec fn decv_at(b: Seq<u8>, i: int) -> Option<(TestCommand, int)> {
        match dec_u8_at(b, i) {
            Some((tag, j)) => if tag == 0 {
                match dec_u64_at(b, j) {
                    Some((y, k)) => Some((TestCommand::Add(y), k)),
                    None => None,
                }
            } else {
                None
            },
            None => None,
        }
    }

    proof fn lemma_round_trip(v: TestCommand, b: Seq<u8>, i: int) {
        match v {
            TestCommand::Add(y) => {
                lemma_concat_split(b, i, enc_u8(0), enc_u64(y));
                lemma_u8_round_trip(0u8, b, i);
                lemma_u64_round_trip(y, b, i + 1);
            },
        }
    }

    fn encode_to(&self, out: &mut Vec<u8>) {
        match self {
            TestCommand::Add(y) => {
                write_u8(out, 0);
                write_u64(out, *y);
                assert(out@ =~= old(out)@ + Self::encv(self.deep_view()));
            },
        }
    }

    fn decode_at(b: &[u8], i: usize) -> (r: Option<(TestCommand, usize)>) {
        match read_u8(b, i) {
            Some((tag, j)) => if tag == 0 {
                match read_u64(b, j) {
                    Some((y, k)) => Some((TestCommand::Add(y), k)),
                    None => None,
                }
            } else {
                None
            },
            None => None,
        }
    }
}

impl Command<TestObject> for TestCommand {
    open spec fn processv(cv: TestCommand, input: u64) -> Result<u64, ()> {
        match cv {
            TestCommand::Add(y) => if input + y <= u64::MAX {
                Ok((input + y) as u64)
            } else {
                Err(())
            },
        }
    }

    /// Add to the counter; a sum beyond 64 bits is a rejection, never a
    /// wrap.
    fn process(self, input: TestObject) -> (r: Result<TestObject, ()>) {
        match self {
            TestCommand::Add(y) => {
                if input.0 <= u64::MAX - y {
                    Ok(TestObject(input.0 + y))
                } else {
                    Err(())
                }
            },
        }
    }
}

impl TestCommand {
    /// Package this command against an expected tip, stamped with the
    /// given time.
    pub fn into_update_at(self, time: SerializableTime, last: BlockHash) -> (r: Update<
        TestCommand,
    >)
        ensures
            r.timestamp@ == time@,
            r.command == self,
            r.last@ == last@,
    {
        Update { timestamp: time, command: self, last }
    }

    /// Package this command against an expected tip, stamped with the
    /// clock's current time.
    pub fn into_update(self, last: BlockHash) -> (r: Result<Update<TestCommand>,
        crate::ltime::TimeError,
    >)
        ensures
            match r {
                Ok(u) => u.command == self && u.last@ == last@,
                Err(_) => true,
            },
    {
        match SerializableTime::from_system_now() {
            Ok(time) => Ok(self.into_update_at(time, last)),
            Err(e) => Err(e),
        }
    }
}


// ---------------------------------------------------------------------
// NamedHash: a map from names to block hashes, kept as an association
// list with unique keys so that its serialization is a pure function of
// the value.
// ---------------------------------------------------------------------

impl Codec for (String, BlockHash) {
    open spec fn encv(v: (Seq<char>, Seq<u8>)) -> Seq<u8> {
        enc_str(v.0) + v.1
    }

    open spec fn encv_wf(v: (Seq<char>, Seq<u8>)) -> bool {
        vstd::utf8::encode_utf8(v.0).len() <= u64::MAX && v.1.len() == 32
    }

    open spec fn decv_at(b: Seq<u8>, i: int) -> Option<((Seq<char>, Seq<u8>), int)> {
        match dec_str_at(b, i) {
            Some((s, j)) => if j + 32 <= b.len() {
                Some(((s, b.subrange(j, j + 32)), j + 32))
            } else {
                None
            },
            None => None,
        }
    }

    proof fn lemma_round_trip(v: (Seq<char>, Seq<u8>), b: Seq<u8>, i: int) {
        lemma_concat_split(b, i, enc_str(v.0), v.1);
        lemma_str_round_trip(v.0, b, i);
        let j = i + enc_str(v.0).len();
        assert(b.subrange(j, j + 32) == v.1);
    }

    fn encode_to(&self, out: &mut Vec<u8>) {
        write_str(out, self.0.as_str());
        self.1.encode_to(out);
        assert(out@ =~= old(out)@ + Self::encv(self.deep_view()));
    }

    fn decode_at(b: &[u8], i: usize) -> (r: Option<((String, BlockHash), usize)>) {
        match read_str(b, i) {
            Some((s, j)) => match BlockHash::decode_at(b, j) {
                Some((h, k)) => Some(((s, h), k)),
                None => None,
            },
            None => None,
        }
    }
}

/// The index of the first entry with the given name, or -1.
pub open spec fn find_idx(s: Seq<(Seq<char>, Seq<u8>)>, k: Seq<char>) -> int
    decreases s.len(),
{
    if s.len() == 0 {
        -1
    } else if s[0].0 == k {
        0
    } else {
        let r = find_idx(s.drop_first(), k);
        if r == -1 {
            -1
        } else {
            r + 1
        }
    }
}

pub proof fn lemma_find_idx_props(s: Seq<(Seq<char>, Seq<u8>)>, k: Seq<char>)
    ensures
        find_idx(s, k) == -1 ==> forall|p: int| 0 <= p < s.len() ==> s[p].0 != k,
        find_idx(s, k) != -1 ==> 0 <= find_idx(s, k) < s.len() && s[find_idx(s, k)].0 == k
            && forall|p: int| 0 <= p < find_idx(s, k) ==> s[p].0 != k,
    decreases s.len(),
{
    if s.len() == 0 {
    } else {
        let sdf = s.drop_first();
        lemma_find_idx_props(sdf, k);
        assert forall|p: int| 0 <= p < sdf.len() implies sdf[p] == s[p + 1] by {}
        if s[0].0 == k {
        } else {
            let r = find_idx(sdf, k);
            if r == -1 {
                assert forall|p: int| 0 <= p < s.len() implies s[p].0 != k by {
                    if p > 0 {
                        assert(sdf[p - 1] == s[p]);
                        assert(sdf[p - 1].0 != k);
                    }
                }
            } else {
                assert(sdf[r] == s[r + 1]);
                assert(find_idx(s, k) == r + 1);
                assert forall|p: int| 0 <= p < find_idx(s, k) implies s[p].0 != k by {
                    if p > 0 {
                        assert(sdf[p - 1] == s[p]);
                        assert(sdf[p - 1].0 != k);
                    }
                }
            }
        }
    }
}

/// `find_idx` depends only on the names.
pub proof fn lemma_find_idx_same_keys(
    s: Seq<(Seq<char>, Seq<u8>)>,
    s2: Seq<(Seq<char>, Seq<u8>)>,
    k: Seq<char>,
)
    requires
        s.len() == s2.len(),
        forall|p: int| 0 <= p < s.len() ==> s[p].0 == s2[p].0,
    ensures
        find_idx(s, k) == find_idx(s2, k),
    decreases s.len(),
{
    if s.len() == 0 {
    } else {
        assert forall|p: int| 0 <= p < s.drop_first().len() implies s.drop_first()[p] == s[p + 1]
            && s2.drop_first()[p] == s2[p + 1] by {}
        assert(s[0].0 == s2[0].0);
        lemma_find_idx_same_keys(s.drop_first(), s2.drop_first(), k);
    }
}

pub proof fn lemma_find_idx_push(
    s: Seq<(Seq<char>, Seq<u8>)>,
    e: (Seq<char>, Seq<u8>),
    k: Seq<char>,
)
    ensures
        find_idx(s.push(e), k) == (if find_idx(s, k) >= 0 {
            find_idx(s, k)
        } else if e.0 == k {
            s.len() as int
        } else {
            -1
        }),
    decreases s.len(),
{
    if s.len() == 0 {
        assert(s.push(e)[0] == e);
        assert(s.push(e).drop_first() =~= Seq::<(Seq<char>, Seq<u8>)>::empty());
        assert(find_idx(Seq::<(Seq<char>, Seq<u8>)>::empty(), k) == -1);
    } else {
        assert(s.push(e)[0] == s[0]);
        assert(s.push(e).drop_first() =~= s.drop_first().push(e));
        lemma_find_idx_push(s.drop_first(), e, k);
        assert(s.push(e).len() > 0);
        if s[0].0 == k {
            assert(find_idx(s.push(e), k) == 0);
            assert(find_idx(s, k) == 0);
        } else {
            assert(find_idx(s.push(e), k) == (if find_idx(s.drop_first().push(e), k) == -1 {
                -1
            } else {
                find_idx(s.drop_first().push(e), k) + 1
            }));
            assert(find_idx(s, k) == (if find_idx(s.drop_first(), k) == -1 {
                -1
            } else {
                find_idx(s.drop_first(), k) + 1
            }));
        }
    }
}

/// The mathematical map a list of entries denotes: the first entry for a
/// name wins.
pub open spec fn named_map(s: Seq<(Seq<char>, Seq<u8>)>) -> Map<Seq<char>, Seq<u8>> {
    Map::new(|k: Seq<char>| find_idx(s, k) >= 0, |k: Seq<char>| s[find_idx(s, k)].1)
}

/// No two entries share a name.
pub open spec fn unique_keys(s: Seq<(Seq<char>, Seq<u8>)>) -> bool {
    forall|p: int, q: int| 0 <= p < q < s.len() ==> s[p].0 != s[q].0
}

/// Replace the entry for a name, or append one.
pub open spec fn named_set(s: Seq<(Seq<char>, Seq<u8>)>, k: Seq<char>, v: Seq<u8>) -> Seq<
    (Seq<char>, Seq<u8>),
> {
    let i = find_idx(s, k);
    if i >= 0 {
        s.update(i, (k, v))
    } else {
        s.push((k, v))
    }
}

/// Setting a name makes exactly the map with that name bound, and keeps
/// names unique.
pub proof fn lemma_named_set(s: Seq<(Seq<char>, Seq<u8>)>, k: Seq<char>, v: Seq<u8>)
    requires
        unique_keys(s),
    ensures
        unique_keys(named_set(s, k, v)),
        named_map(named_set(s, k, v)) == named_map(s).insert(k, v),
{
    let s2 = named_set(s, k, v);
    let i = find_idx(s, k);
    lemma_find_idx_props(s, k);
    if i >= 0 {
        assert(forall|p: int| 0 <= p < s.len() ==> s2[p].0 == s[p].0);
        assert(unique_keys(s2));
        assert forall|k2: Seq<char>| #[trigger] find_idx(s2, k2) == find_idx(s, k2) by {
            lemma_find_idx_same_keys(s, s2, k2);
        }
        assert forall|k2: Seq<char>| true implies #[trigger] named_map(s2).contains_key(k2)
            == named_map(s).insert(k, v).contains_key(k2) && (named_map(s2).contains_key(k2)
            ==> named_map(s2)[k2] == named_map(s).insert(k, v)[k2]) by {
            lemma_find_idx_props(s2, k2);
            lemma_find_idx_props(s, k2);
            if k2 == k {
                assert(s2[i].1 == v);
            } else {
                if find_idx(s, k2) >= 0 {
                    let j = find_idx(s, k2);
                    assert(s[j].0 == k2);
                    assert(j != i);
                    assert(s2[j].1 == s[j].1);
                }
            }
        }
        assert(named_map(s2) =~= named_map(s).insert(k, v));
    } else {
        assert(forall|p: int| 0 <= p < s.len() ==> s2[p] == s[p] && s[p].0 != k);
        assert(s2[s.len() as int] == (k, v));
        assert(unique_keys(s2));
        assert forall|k2: Seq<char>| true implies #[trigger] named_map(s2).contains_key(k2)
            == named_map(s).insert(k, v).contains_key(k2) && (named_map(s2).contains_key(k2)
            ==> named_map(s2)[k2] == named_map(s).insert(k, v)[k2]) by {
            lemma_find_idx_push(s, (k, v), k2);
            lemma_find_idx_props(s, k2);
            lemma_find_idx_props(s2, k2);
        }
        assert(named_map(s2) =~= named_map(s).insert(k, v));
    }
}

/// Maps String names to a BlockHash, maintaining a persistent log like
/// any other verified stream value.
#[derive(Debug)]
pub struct NamedHash {
    entries: Vec<(String, BlockHash)>,
}

impl View for NamedHash {
    type V = Seq<(Seq<char>, Seq<u8>)>;

    closed spec fn view(&self) -> Seq<(Seq<char>, Seq<u8>)> {
        self.entries.deep_view()
    }
}

impl DeepView for NamedHash {
    type V = Seq<(Seq<char>, Seq<u8>)>;

    open spec fn deep_view(&self) -> Seq<(Seq<char>, Seq<u8>)> {
        self.view()
    }
}

impl Default for NamedHash {
    fn default() -> (r: NamedHash)
        ensures
            r@ == Seq::<(Seq<char>, Seq<u8>)>::empty(),
    {
        let r = NamedHash { entries: Vec::new() };
        proof {
            assert(r@ =~= Seq::<(Seq<char>, Seq<u8>)>::empty());
        }
        r
    }
}

impl NamedHash {
    /// Names are unique, so the map below is faithful.
    #[verifier::type_invariant]
    pub open spec fn inv(self) -> bool {
        unique_keys(self@)
    }

    /// The map this value denotes.
    pub open spec fn as_map(self) -> Map<Seq<char>, Seq<u8>> {
        named_map(self@)
    }

    pub fn new() -> (r: NamedHash)
        ensures
            r@ == Seq::<(Seq<char>, Seq<u8>)>::empty(),
            r.as_map() == Map::<Seq<char>, Seq<u8>>::empty(),
    {
        let r = NamedHash { entries: Vec::new() };
        proof {
            assert(r@ =~= Seq::<(Seq<char>, Seq<u8>)>::empty());
            assert(r.as_map() =~= Map::<Seq<char>, Seq<u8>>::empty());
        }
        r
    }

    /// The hash bound to a name, if any.
    pub fn lookup(&self, name: &str) -> (r: Option<BlockHash>)
        ensures
            match r {
                Some(h) => self.as_map().contains_key(name@) && h@ == self.as_map()[name@],
                None => !self.as_map().contains_key(name@),
            },
    {
        proof {
            use_type_invariant(self);
        }
        let ghost sv = self@;
        let n = self.entries.len();
        let mut idx: usize = 0;
        while idx < n
            invariant
                sv == self@,
                n == sv.len(),
                0 <= idx <= n,
                forall|p: int| 0 <= p < idx ==> sv[p].0 != name@,
            decreases n - idx,
        {
            let entry = &self.entries[idx];
            if str_eq(entry.0.as_str(), name) {
                proof {
                    lemma_find_idx_props(sv, name@);
                    assert(sv[idx as int].0 == name@);
                    assert(find_idx(sv, name@) == idx as int);
                }
                return Some(entry.1.clone());
            }
            idx = idx + 1;
        }
        proof {
            lemma_find_idx_props(sv, name@);
        }
        None
    }

    /// A new value with `name` bound to `hash`; all other bindings kept.
    pub fn set(&self, name: &str, hash: &BlockHash) -> (r: NamedHash)
        ensures
            r@ == named_set(self@, name@, hash@),
            r.as_map() == self.as_map().insert(name@, hash@),
    {
        proof {
            use_type_invariant(self);
            lemma_named_set(self@, name@, hash@);
        }
        let ghost sv = self@;
        let ghost kk = name@;
        let ghost tgt = named_set(self@, name@, hash@);
        let n = self.entries.len();
        let mut out: Vec<(String, BlockHash)> = Vec::new();
        let mut found = false;
        let mut idx: usize = 0;
        proof {
            assert(out.deep_view() =~= Seq::<(Seq<char>, Seq<u8>)>::empty());
        }
        while idx < n
            invariant
                sv == self@,
                kk == name@,
                tgt == named_set(sv, kk, hash@),
                unique_keys(sv),
                n == sv.len(),
                0 <= idx <= n,
                found == (0 <= find_idx(sv, kk) < idx as int),
                out.deep_view().len() == idx,
                forall|p: int| 0 <= p < idx ==> out.deep_view()[p] == (if p == find_idx(sv, kk) {
                    (kk, hash@)
                } else {
                    sv[p]
                }),
            decreases n - idx,
        {
            let ghost out0 = out.deep_view();
            let entry = &self.entries[idx];
            proof {
                lemma_find_idx_props(sv, kk);
            }
            if !found && str_eq(entry.0.as_str(), name) {
                proof {
                    assert(sv[idx as int].0 == kk);
                    assert(find_idx(sv, kk) == idx as int);
                }
                out.push((entry.0.clone(), hash.clone()));
                found = true;
            } else {
                out.push((entry.0.clone(), entry.1.clone()));
                proof {
                    if !found {
                        assert(sv[idx as int].0 != kk);
                    }
                }
            }
            proof {
                let dv_new = out.deep_view();
                assert(forall|p: int| 0 <= p < dv_new.len() ==> dv_new[p] == out0.push(
                    dv_new[idx as int],
                )[p]);
            }
            idx = idx + 1;
        }
        proof {
            lemma_find_idx_props(sv, kk);
        }
        if !found {
            let ghost out0 = out.deep_view();
            out.push((name.to_owned(), hash.clone()));
            proof {
                let dv_new = out.deep_view();
                assert(forall|p: int| 0 <= p < dv_new.len() ==> dv_new[p] == out0.push((
                    kk,
                    hash@,
                ))[p]);
                assert(dv_new =~= sv.push((kk, hash@)));
            }
        }
        let r = NamedHash { entries: out };
        proof {
            assert(r@ =~= tgt);
        }
        r
    }
}

/// True when no two entries of the list share a name.
fn entries_unique(entries: &Vec<(String, BlockHash)>) -> (r: bool)
    ensures
        r == unique_keys(entries.deep_view()),
{
    let ghost dv = entries.deep_view();
    let n = entries.len();
    let mut p: usize = 0;
    while p < n
        invariant
            dv == entries.deep_view(),
            n == dv.len(),
            0 <= p <= n,
            forall|a: int, b2: int| 0 <= a < b2 < n && a < p ==> dv[a].0 != dv[b2].0,
        decreases n - p,
    {
        let mut q: usize = p + 1;
        while q < n
            invariant
                dv == entries.deep_view(),
                n == dv.len(),
                0 <= p < n,
                p < q <= n,
                forall|b2: int| p < b2 < q ==> dv[p as int].0 != dv[b2].0,
            decreases n - q,
        {
            if str_eq(entries[p].0.as_str(), entries[q].0.as_str()) {
                proof {
                    assert(dv[p as int].0 == entries@[p as int].0@);
                    assert(dv[q as int].0 == entries@[q as int].0@);
                    assert(!unique_keys(dv));
                }
                return false;
            }
            proof {
                assert(dv[p as int].0 == entries@[p as int].0@);
                assert(dv[q as int].0 == entries@[q as int].0@);
            }
            q = q + 1;
        }
        p = p + 1;
    }
    true
}

impl Codec for NamedHash {
    open spec fn encv(v: Seq<(Seq<char>, Seq<u8>)>) -> Seq<u8> {
        enc_list::<(String, BlockHash)>(v)
    }

    open spec fn encv_wf(v: Seq<(Seq<char>, Seq<u8>)>) -> bool {
        items_wf::<(String, BlockHash)>(v) && v.len() <= u64::MAX && unique_keys(v)
    }

    open spec fn decv_at(b: Seq<u8>, i: int) -> Option<(Seq<(Seq<char>, Seq<u8>)>, int)> {
        match dec_list_at::<(String, BlockHash)>(b, i) {
            Some((s, j)) => if unique_keys(s) {
                Some((s, j))
            } else {
                None
            },
            None => None,
        }
    }

    proof fn lemma_round_trip(v: Seq<(Seq<char>, Seq<u8>)>, b: Seq<u8>, i: int) {
        lemma_list_round_trip::<(String, BlockHash)>(v, b, i);
    }

    fn encode_to(&self, out: &mut Vec<u8>) {
        proof {
            use_type_invariant(self);
        }
        let n = self.entries.len();
        write_list::<(String, BlockHash)>(out, &self.entries);
    }

    fn decode_at(b: &[u8], i: usize) -> (r: Option<(NamedHash, usize)>) {
        match read_list::<(String, BlockHash)>(b, i) {
            Some((entries, j)) => if entries_unique(&entries) {
                Some((NamedHash { entries }, j))
            } else {
                None
            },
            None => None,
        }
    }
}

/// Commands over `NamedHash`: bind a name to a hash.
#[derive(Debug)]
pub enum NamedHashCommand {
    Bind(String, BlockHash),
}

impl DeepView for NamedHashCommand {
    type V = (Seq<char>, Seq<u8>);

    open spec fn deep_view(&self) -> (Seq<char>, Seq<u8>) {
        match self {
            NamedHashCommand::Bind(name, hash) => (name@, hash@),
        }
    }
}

impl Clone for NamedHashCommand {
    fn clone(&self) -> (r: NamedHashCommand)
        ensures
            r.deep_view() == self.deep_view(),
    {
        match self {
            NamedHashCommand::Bind(name, hash) => NamedHashCommand::Bind(
                name.clone(),
                hash.clone(),
            ),
        }
    }
}

impl Codec for NamedHashCommand {
    open spec fn encv(v: (Seq<char>, Seq<u8>)) -> Seq<u8> {
        enc_u8(0) + <(String, BlockHash)>::encv(v)
    }

    open spec fn encv_wf(v: (Seq<char>, Seq<u8>)) -> bool {
        <(String, BlockHash)>::encv_wf(v)
    }

    open spec fn decv_at(b: Seq<u8>, i: int) -> Option<((Seq<char>, Seq<u8>), int)> {
        match dec_u8_at(b, i) {
            Some((tag, j)) => if tag == 0 {
                <(String, BlockHash)>::decv_at(b, j)
            } else {
                None
            },
            None => None,
        }
    }

    proof fn lemma_round_trip(v: (Seq<char>, Seq<u8>), b: Seq<u8>, i: int) {
        lemma_concat_split(b, i, enc_u8(0), <(String, BlockHash)>::encv(v));
        lemma_u8_round_trip(0u8, b, i);
        <(String, BlockHash)>::lemma_round_trip(v, b, i + 1);
    }

    fn encode_to(&self, out: &mut Vec<u8>) {
        write_u8(out, 0);
        match self {
            NamedHashCommand::Bind(name, hash) => {
                write_str(out, name.as_str());
                hash.encode_to(out);
            },
        }
        assert(out@ =~= old(out)@ + Self::encv(self.deep_view()));
    }

    fn decode_at(b: &[u8], i: usize) -> (r: Option<(NamedHashCommand, usize)>) {
        match read_u8(b, i) {
            Some((tag, j)) => if tag == 0 {
                match <(String, BlockHash)>::decode_at(b, j) {
                    Some(((name, hash), k)) => Some((NamedHashCommand::Bind(name, hash), k)),
                    None => None,
                }
            } else {
                None
            },
            None => None,
        }
    }
}

impl Command<NamedHash> for NamedHashCommand {
    open spec fn processv(cv: (Seq<char>, Seq<u8>), input: Seq<(Seq<char>, Seq<u8>)>) -> Result<
        Seq<(Seq<char>, Seq<u8>)>,
        (),
    > {
        Ok(named_set(input, cv.0, cv.1))
    }

    /// Bind the name; existing bindings for other names are kept.
    fn process(self, input: NamedHash) -> (r: Result<NamedHash, ()>) {
        match self {
            NamedHashCommand::Bind(name, hash) => Ok(input.set(name.as_str(), &hash)),
        }
    }
}

} // verus!
