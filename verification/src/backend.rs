//! The backend accessor: the innermost implementation the operator and
//! layer stack dispatch to.  This one keeps objects in memory, reports a
//! configured native capability, paginates listings, counts every call it
//! observes, and can be scripted to fail its next calls with a chosen
//! error — which is what capability-check and retry contracts are stated
//! and tested against.

use vstd::prelude::*;
use crate::error::ErrorKind;
use crate::error::OpError;
use crate::error::Operation;
use crate::capability::Capability;
use crate::metadata::EntryMode;
use crate::metadata::RawMeta;
use crate::presign::PresignOperation;
use crate::presign::PresignedRequest;
use crate::presign::spec_header_map;
use crate::presign::method_for;
use crate::presign::spec_method_for;

verus! {

/// One stored object: a path and its bytes.
#[derive(Clone, PartialEq, Eq, Debug)]
pub struct Obj {
    pub path: Vec<u8>,
    pub data: Vec<u8>,
}

/// A request for one backend operation, with its arguments.
#[derive(Clone, PartialEq, Eq, Debug)]
pub enum OpRequest {
    Stat { path: Vec<u8> },
    Read { path: Vec<u8> },
    Write { path: Vec<u8>, data: Vec<u8> },
    Delete { path: Vec<u8> },
    Copy { from: Vec<u8>, to: Vec<u8> },
    Rename { from: Vec<u8>, to: Vec<u8> },
    ListPage { path: Vec<u8>, cursor: usize },
    Presign { path: Vec<u8>, op: PresignOperation, expire_seconds: u64 },
}

/// One entry of a listing page, before any metakey mask is applied.
#[derive(Clone, PartialEq, Eq, Debug)]
pub struct RawEntry {
    pub path: Vec<u8>,
    pub meta: RawMeta,
}

/// What one backend operation returns on success.
#[derive(Clone, PartialEq, Eq, Debug)]
pub enum OpOutput {
    Meta(RawMeta),
    Bytes(Vec<u8>),
    Done,
    Page { entries: Vec<RawEntry>, next: Option<usize> },
    Presigned(PresignedRequest),
}

/// The operation a request asks for.
pub open spec fn spec_op_of(req: OpRequest) -> Operation {
    match req {
        OpRequest::Stat { .. } => Operation::Stat,
        OpRequest::Read { .. } => Operation::Read,
        OpRequest::Write { .. } => Operation::Write,
        OpRequest::Delete { .. } => Operation::Delete,
        OpRequest::Copy { .. } => Operation::Copy,
        OpRequest::Rename { .. } => Operation::Rename,
        OpRequest::ListPage { .. } => Operation::List,
        OpRequest::Presign { .. } => Operation::Presign,
    }
}

/// The operation a request asks for.
pub fn op_of(req: &OpRequest) -> (r: Operation)
    ensures
        r == spec_op_of(*req),
{
    match req {
        OpRequest::Stat { .. } => Operation::Stat,
        OpRequest::Read { .. } => Operation::Read,
        OpRequest::Write { .. } => Operation::Write,
        OpRequest::Delete { .. } => Operation::Delete,
        OpRequest::Copy { .. } => Operation::Copy,
        OpRequest::Rename { .. } => Operation::Rename,
        OpRequest::ListPage { .. } => Operation::List,
        OpRequest::Presign { .. } => Operation::Presign,
    }
}

/// A call counter that sticks at its maximum instead of wrapping.
pub open spec fn spec_inc(c: u64) -> u64 {
    if c < u64::MAX {
        (c + 1) as u64
    } else {
        c
    }
}

/// No two stored objects share a path.
pub open spec fn spec_unique_paths(s: Seq<Obj>) -> bool {
    forall|i: int, j: int| 0 <= i < j < s.len() ==> s[i].path@ != s[j].path@
}

/// The contents a sequence of stored objects denotes: a map from path to
/// bytes.
pub open spec fn store_of(s: Seq<Obj>) -> Map<Seq<u8>, Seq<u8>>
    decreases s.len(),
{
    if s.len() == 0 {
        Map::empty()
    } else {
        store_of(s.drop_last()).insert(s.last().path@, s.last().data@)
    }
}

pub proof fn lemma_store_contains(s: Seq<Obj>, k: Seq<u8>)
    ensures
        store_of(s).contains_key(k) <==> exists|i: int| 0 <= i < s.len() && s[i].path@ == k,
    decreases s.len(),
{
    if s.len() > 0 {
        lemma_store_contains(s.drop_last(), k);
        if s.last().path@ == k {
            assert(s[s.len() - 1].path@ == k);
        } else if store_of(s).contains_key(k) {
            let i = choose|i: int| 0 <= i < s.drop_last().len() && s.drop_last()[i].path@ == k;
            assert(s[i].path@ == k);
        } else if exists|i: int| 0 <= i < s.len() && s[i].path@ == k {
            let i = choose|i: int| 0 <= i < s.len() && s[i].path@ == k;
            assert(s.drop_last()[i].path@ == k);
        }
    }
}

pub proof fn lemma_store_value_at(s: Seq<Obj>, i: int)
    requires
        spec_unique_paths(s),
        0 <= i < s.len(),
    ensures
        store_of(s).contains_key(s[i].path@),
        store_of(s)[s[i].path@] == s[i].data@,
    decreases s.len(),
{
    if i == s.len() - 1 {
    } else {
        lemma_store_value_at(s.drop_last(), i);
        assert(s.last().path@ != s[i].path@);
    }
}

proof fn lemma_store_update(s: Seq<Obj>, i: int, o: Obj)
    requires
        spec_unique_paths(s),
        0 <= i < s.len(),
        s[i].path@ == o.path@,
    ensures
        store_of(s.update(i, o)) == store_of(s).insert(o.path@, o.data@),
    decreases s.len(),
{
    let su = s.update(i, o);
    if i == s.len() - 1 {
        assert(su.drop_last() =~= s.drop_last());
        assert(store_of(s).insert(o.path@, o.data@) =~= store_of(s.drop_last()).insert(
            o.path@,
            o.data@,
        ));
    } else {
        assert(su.drop_last() =~= s.drop_last().update(i, o));
        lemma_store_update(s.drop_last(), i, o);
        assert(s.last().path@ != o.path@);
        assert(store_of(s.drop_last()).insert(o.path@, o.data@).insert(
            s.last().path@,
            s.last().data@,
        ) =~= store_of(s.drop_last()).insert(s.last().path@, s.last().data@).insert(
            o.path@,
            o.data@,
        ));
        assert(su.last() == s.last());
    }
}

proof fn lemma_store_remove(s: Seq<Obj>, i: int)
    requires
        spec_unique_paths(s),
        0 <= i < s.len(),
    ensures
        store_of(s.remove(i)) == store_of(s).remove(s[i].path@),
        spec_unique_paths(s.remove(i)),
    decreases s.len(),
{
    let sr = s.remove(i);
    assert forall|a: int, b: int| 0 <= a < b < sr.len() implies sr[a].path@ != sr[b].path@ by {
        let a0 = if a < i {
            a
        } else {
            a + 1
        };
        let b0 = if b < i {
            b
        } else {
            b + 1
        };
        assert(sr[a] == s[a0] && sr[b] == s[b0]);
    }
    if i == s.len() - 1 {
        assert(sr =~= s.drop_last());
        lemma_store_contains(s.drop_last(), s[i].path@);
        assert(store_of(s).remove(s[i].path@) =~= store_of(s.drop_last()));
    } else {
        assert(sr.drop_last() =~= s.drop_last().remove(i));
        lemma_store_remove(s.drop_last(), i);
        assert(s.last().path@ != s[i].path@);
        assert(store_of(s.drop_last()).remove(s[i].path@).insert(s.last().path@, s.last().data@)
            =~= store_of(s.drop_last()).insert(s.last().path@, s.last().data@).remove(s[i].path@));
        assert(sr.last() == s.last());
    }
}

/// The mode a path denotes: directories end with a slash.
pub open spec fn spec_mode_of(path: Seq<u8>) -> EntryMode {
    if path.len() > 0 && path.last() == 47u8 {
        EntryMode::Dir
    } else {
        EntryMode::File
    }
}

/// The raw attributes this backend reports for a stored object.
pub open spec fn spec_meta_of(path: Seq<u8>, data: Seq<u8>) -> RawMeta {
    RawMeta {
        mode: spec_mode_of(path),
        content_length: data.len() as u64,
        content_disposition: None,
        content_md5: None,
        content_type: None,
        cache_control: None,
        etag: None,
        last_modified: None,
        version: None,
    }
}

/// Whether `p` is a prefix of `s`.
pub open spec fn spec_is_prefix(p: Seq<u8>, s: Seq<u8>) -> bool {
    p.len() <= s.len() && s.subrange(0, p.len() as int) == p
}

/// The listing a span of stored objects denotes under a path prefix, in
/// storage order: each matching object's path paired with its raw
/// attributes.
pub open spec fn spec_listing(s: Seq<Obj>, prefix: Seq<u8>) -> Seq<(Seq<u8>, RawMeta)>
    decreases s.len(),
{
    if s.len() == 0 {
        Seq::empty()
    } else if spec_is_prefix(prefix, s.last().path@) {
        spec_listing(s.drop_last(), prefix).push(
            (s.last().path@, spec_meta_of(s.last().path@, s.last().data@)),
        )
    } else {
        spec_listing(s.drop_last(), prefix)
    }
}

/// A cursor clamped to the end of the objects: scanning past the end is
/// an empty final page.
pub open spec fn spec_clamped(cursor: usize, len: int) -> int {
    if cursor as int <= len {
        cursor as int
    } else {
        len
    }
}

/// Where a page that starts scanning at `cursor` with `remaining` slots
/// stops: just past the match that fills the page, or at the end.
pub open spec fn spec_page_stop(s: Seq<Obj>, prefix: Seq<u8>, cursor: int, remaining: nat) -> int
    decreases s.len() - cursor,
{
    if cursor < 0 || cursor >= s.len() || remaining == 0 {
        cursor
    } else if spec_is_prefix(prefix, s[cursor].path@) {
        spec_page_stop(s, prefix, cursor + 1, (remaining - 1) as nat)
    } else {
        spec_page_stop(s, prefix, cursor + 1, remaining)
    }
}

proof fn lemma_page_stop_range(s: Seq<Obj>, prefix: Seq<u8>, cursor: int, remaining: nat)
    requires
        0 <= cursor <= s.len(),
    ensures
        cursor <= spec_page_stop(s, prefix, cursor, remaining) <= s.len(),
    decreases s.len() - cursor,
{
    if cursor < s.len() && remaining > 0 {
        if spec_is_prefix(prefix, s[cursor].path@) {
            lemma_page_stop_range(s, prefix, cursor + 1, (remaining - 1) as nat);
        } else {
            lemma_page_stop_range(s, prefix, cursor + 1, remaining);
        }
    }
}

/// A listing splits at any point: the entries of a span are those of its
/// two halves, in order.
pub proof fn lemma_listing_split(s: Seq<Obj>, p: Seq<u8>, a: int, b: int, c: int)
    requires
        0 <= a <= b <= c <= s.len(),
    ensures
        spec_listing(s.subrange(a, c), p) == spec_listing(s.subrange(a, b), p) + spec_listing(
            s.subrange(b, c),
            p,
        ),
    decreases c - b,
{
    if b == c {
        assert(s.subrange(b, c) =~= Seq::<Obj>::empty());
        assert(s.subrange(a, c) =~= s.subrange(a, b));
        assert(spec_listing(s.subrange(a, c), p) =~= spec_listing(s.subrange(a, b), p)
            + spec_listing(s.subrange(b, c), p));
    } else {
        lemma_listing_split(s, p, a, b, c - 1);
        let whole = s.subrange(a, c);
        let part = s.subrange(b, c);
        assert(whole.drop_last() =~= s.subrange(a, c - 1));
        assert(part.drop_last() =~= s.subrange(b, c - 1));
        assert(whole.last() == s[c - 1]);
        assert(part.last() == s[c - 1]);
        if spec_is_prefix(p, s[c - 1].path@) {
            assert(spec_listing(whole, p) =~= spec_listing(s.subrange(a, b), p) + spec_listing(
                part,
                p,
            ));
        } else {
            assert(spec_listing(whole, p) =~= spec_listing(s.subrange(a, b), p) + spec_listing(
                part,
                p,
            ));
        }
    }
}

/// Every listed path comes from a stored object.
pub proof fn lemma_listing_member(s: Seq<Obj>, p: Seq<u8>, k: int)
    requires
        0 <= k < spec_listing(s, p).len(),
    ensures
        exists|i: int| 0 <= i < s.len() && (#[trigger] s[i].path@) == spec_listing(s, p)[k].0,
    decreases s.len(),
{
    if s.len() > 0 {
        let l = spec_listing(s, p);
        let ld = spec_listing(s.drop_last(), p);
        if spec_is_prefix(p, s.last().path@) && k == l.len() - 1 {
            assert(s[s.len() - 1].path@ == l[k].0);
        } else {
            lemma_listing_member(s.drop_last(), p, k);
            let i = choose|i: int|
                0 <= i < s.drop_last().len() && (#[trigger] s.drop_last()[i].path@) == ld[k].0;
            assert(s[i].path@ == l[k].0);
        }
    }
}

/// A listing over unique paths holds no path twice: drained pages show
/// each stored object under the prefix exactly once.
pub proof fn lemma_listing_distinct(s: Seq<Obj>, p: Seq<u8>, a: int, b: int)
    requires
        spec_unique_paths(s),
        0 <= a < b < spec_listing(s, p).len(),
    ensures
        spec_listing(s, p)[a].0 != spec_listing(s, p)[b].0,
    decreases s.len(),
{
    let l = spec_listing(s, p);
    let ld = spec_listing(s.drop_last(), p);
    if spec_is_prefix(p, s.last().path@) && b == l.len() - 1 {
        lemma_listing_member(s.drop_last(), p, a);
        let i = choose|i: int|
            0 <= i < s.drop_last().len() && (#[trigger] s.drop_last()[i].path@) == ld[a].0;
        assert(s[i].path@ == l[a].0);
        assert(s[i].path@ != s[s.len() - 1].path@);
    } else {
        assert forall|x: int, y: int|
            0 <= x < y < s.drop_last().len() implies s.drop_last()[x].path@ != s.drop_last()[
            y
        ].path@ by {
            assert(s[x].path@ != s[y].path@);
        }
        lemma_listing_distinct(s.drop_last(), p, a, b);
    }
}

/// A page that starts before the end advances past at least one object.
pub proof fn lemma_page_stop_advances(s: Seq<Obj>, prefix: Seq<u8>, cursor: int, remaining: nat)
    requires
        0 <= cursor < s.len(),
        remaining >= 1,
    ensures
        spec_page_stop(s, prefix, cursor, remaining) >= cursor + 1,
        spec_page_stop(s, prefix, cursor, remaining) <= s.len(),
    decreases s.len() - cursor,
{
    if spec_is_prefix(prefix, s[cursor].path@) {
        lemma_page_stop_bounds(s, prefix, cursor + 1, (remaining - 1) as nat);
    } else {
        lemma_page_stop_bounds(s, prefix, cursor + 1, remaining);
    }
}

/// Where a page stops lies between its start and the end.
pub proof fn lemma_page_stop_bounds(s: Seq<Obj>, prefix: Seq<u8>, cursor: int, remaining: nat)
    requires
        0 <= cursor <= s.len(),
    ensures
        cursor <= spec_page_stop(s, prefix, cursor, remaining) <= s.len(),
    decreases s.len() - cursor,
{
    if cursor < s.len() && remaining > 0 {
        if spec_is_prefix(prefix, s[cursor].path@) {
            lemma_page_stop_bounds(s, prefix, cursor + 1, (remaining - 1) as nat);
        } else {
            lemma_page_stop_bounds(s, prefix, cursor + 1, remaining);
        }
    }
}

/// The error this backend fails with while scripted faults remain.
pub open spec fn spec_fault_error(b: Backend, op: Operation) -> OpError {
    OpError { kind: b.fault_kind, op, temporary: b.fault_temporary }
}

/// An in-memory, scriptable backend accessor.
pub struct Backend {
    /// The capability this backend reports natively.
    pub capability: Capability,
    /// The stored objects, paths unique, in insertion order.
    pub objects: Vec<Obj>,
    /// How many entries one listing page holds at most.
    pub page_size: usize,
    /// The base URI presigned requests point at.
    pub endpoint: String,
    /// The header pairs a presigned request is signed with, as configured
    /// (duplicates allowed here; the built request deduplicates).
    pub signing_headers: Vec<(String, String)>,
    /// How many of the next calls fail with the scripted error.
    pub faults: u64,
    /// The kind of the scripted error.
    pub fault_kind: ErrorKind,
    /// Whether the scripted error is transient.
    pub fault_temporary: bool,
    /// How many calls this backend has observed, sticking at the maximum.
    pub calls: u64,
}

impl Backend {
    /// Paths unique and pages non-empty.
    pub open spec fn wf(&self) -> bool {
        &&& spec_unique_paths(self.objects@)
        &&& self.page_size >= 1
    }

    /// The contents of this backend, as a map from path to bytes.
    pub open spec fn store(&self) -> Map<Seq<u8>, Seq<u8>> {
        store_of(self.objects@)
    }

    /// Everything but the objects, the fault budget and the call counter
    /// is unchanged.
    pub open spec fn spec_frame(pre: Backend, post: Backend) -> bool {
        &&& post.capability == pre.capability
        &&& post.page_size == pre.page_size
        &&& post.endpoint == pre.endpoint
        &&& post.signing_headers == pre.signing_headers
        &&& post.fault_kind == pre.fault_kind
        &&& post.fault_temporary == pre.fault_temporary
        &&& post.calls == spec_inc(pre.calls)
    }

    /// The full contract of one backend call: while scripted faults
    /// remain, the call consumes one and fails with the scripted error,
    /// touching nothing; otherwise the operation acts on the store and
    /// answers exactly as the request demands.
    pub open spec fn spec_perform(pre: Backend, req: OpRequest, post: Backend, r: Result<
        OpOutput,
        OpError,
    >) -> bool {
        &&& Backend::spec_frame(pre, post)
        &&& if pre.faults > 0 {
            &&& post.objects@ == pre.objects@
            &&& post.faults == pre.faults - 1
            &&& r == Result::<OpOutput, OpError>::Err(spec_fault_error(pre, spec_op_of(req)))
        } else {
            &&& post.faults == 0u64
            &&& Backend::spec_perform_ok(pre, req, post, r)
        }
    }

    /// The contract of one unfaulted backend call, case by case.
    pub open spec fn spec_perform_ok(pre: Backend, req: OpRequest, post: Backend, r: Result<
        OpOutput,
        OpError,
    >) -> bool {
        match req {
            OpRequest::Stat { path } => {
                &&& post.objects@ == pre.objects@
                &&& if pre.store().contains_key(path@) {
                    r == Result::<OpOutput, OpError>::Ok(
                        OpOutput::Meta(spec_meta_of(path@, pre.store()[path@])),
                    )
                } else {
                    r == Result::<OpOutput, OpError>::Err(
                        OpError { kind: ErrorKind::NotFound, op: Operation::Stat, temporary: false },
                    )
                }
            },
            OpRequest::Read { path } => {
                &&& post.objects@ == pre.objects@
                &&& if pre.store().contains_key(path@) {
                    match r {
                        Ok(OpOutput::Bytes(d)) => d@ == pre.store()[path@],
                        _ => false,
                    }
                } else {
                    r == Result::<OpOutput, OpError>::Err(
                        OpError { kind: ErrorKind::NotFound, op: Operation::Read, temporary: false },
                    )
                }
            },
            OpRequest::Write { path, data } => {
                &&& post.store() == pre.store().insert(path@, data@)
                &&& spec_unique_paths(post.objects@)
                &&& r == Result::<OpOutput, OpError>::Ok(OpOutput::Done)
            },
            OpRequest::Delete { path } => {
                &&& post.store() == pre.store().remove(path@)
                &&& spec_unique_paths(post.objects@)
                &&& r == Result::<OpOutput, OpError>::Ok(OpOutput::Done)
            },
            OpRequest::Copy { from, to } => {
                if pre.store().contains_key(from@) {
                    &&& post.store() == pre.store().insert(to@, pre.store()[from@])
                    &&& spec_unique_paths(post.objects@)
                    &&& r == Result::<OpOutput, OpError>::Ok(OpOutput::Done)
                } else {
                    &&& post.objects@ == pre.objects@
                    &&& r == Result::<OpOutput, OpError>::Err(
                        OpError { kind: ErrorKind::NotFound, op: Operation::Copy, temporary: false },
                    )
                }
            },
            OpRequest::Rename { from, to } => {
                if pre.store().contains_key(from@) {
                    &&& post.store() == pre.store().remove(from@).insert(to@, pre.store()[from@])
                    &&& spec_unique_paths(post.objects@)
                    &&& r == Result::<OpOutput, OpError>::Ok(OpOutput::Done)
                } else {
                    &&& post.objects@ == pre.objects@
                    &&& r == Result::<OpOutput, OpError>::Err(
                        OpError {
                            kind: ErrorKind::NotFound,
                            op: Operation::Rename,
                            temporary: false,
                        },
                    )
                }
            },
            OpRequest::ListPage { path, cursor } => {
                &&& post.objects@ == pre.objects@
                &&& {
                    let from = spec_clamped(cursor, pre.objects@.len() as int);
                    let stop = spec_page_stop(pre.objects@, path@, from, pre.page_size as nat);
                    match r {
                        Ok(OpOutput::Page { entries, next }) => {
                            &&& entries@.map_values(|e: RawEntry| (e.path@, e.meta))
                                == spec_listing(
                                pre.objects@.subrange(from, stop),
                                path@,
                            )
                            &&& next == if stop < pre.objects@.len() {
                                Some(stop as usize)
                            } else {
                                Option::<usize>::None
                            }
                        },
                        _ => false,
                    }
                }
            },
            OpRequest::Presign { path, op, expire_seconds } => {
                &&& post.objects@ == pre.objects@
                &&& match r {
                    Ok(OpOutput::Presigned(p)) => {
                        &&& p.wf()
                        &&& p.method == spec_method_for(op)
                        &&& p.uri@ == pre.endpoint@
                        &&& p.header_map() == spec_header_map(pre.signing_headers@)
                    },
                    _ => false,
                }
            },
        }
    }
}

/// Whether `p` is a prefix of `s`, decided byte by byte.
pub fn is_prefix(p: &[u8], s: &[u8]) -> (r: bool)
    ensures
        r == spec_is_prefix(p@, s@),
{
    if p.len() > s.len() {
        proof {
            assert(!spec_is_prefix(p@, s@));
        }
        return false;
    }
    let n = p.len();
    for i in 0..n
        invariant
            n == p@.len() <= s@.len(),
            forall|t: int| 0 <= t < i ==> p@[t] == s@[t],
    {
        if p[i] != s[i] {
            proof {
                assert(s@.subrange(0, p@.len() as int)[i as int] == s@[i as int]);
            }
            return false;
        }
    }
    proof {
        assert(s@.subrange(0, p@.len() as int) =~= p@);
    }
    true
}

/// Whether two byte strings are equal, decided byte by byte.
pub fn bytes_eq(a: &[u8], b: &[u8]) -> (r: bool)
    ensures
        r == (a@ == b@),
{
    if a.len() != b.len() {
        return false;
    }
    let n = a.len();
    for i in 0..n
        invariant
            n == a@.len() == b@.len(),
            forall|t: int| 0 <= t < i ==> a@[t] == b@[t],
    {
        if a[i] != b[i] {
            return false;
        }
    }
    proof {
        assert(a@ =~= b@);
    }
    true
}

/// The index of the object stored under the path, if any.
fn find_index(objects: &Vec<Obj>, path: &[u8]) -> (r: Option<usize>)
    ensures
        match r {
            Some(i) => i < objects@.len() && objects@[i as int].path@ == path@,
            None => forall|t: int| 0 <= t < objects@.len() ==> objects@[t].path@ != path@,
        },
{
    let n = objects.len();
    for i in 0..n
        invariant
            n == objects@.len(),
            forall|t: int| 0 <= t < i ==> objects@[t].path@ != path@,
    {
        if bytes_eq(objects[i].path.as_slice(), path) {
            return Some(i);
        }
    }
    None
}

impl Backend {
    /// A fresh backend with the given capability, page size, presign
    /// endpoint and signing headers, holding nothing, scripted to fail
    /// nothing, having observed no call.
    pub fn new(
        capability: Capability,
        page_size: usize,
        endpoint: String,
        signing_headers: Vec<(String, String)>,
    ) -> (r: Backend)
        requires
            page_size >= 1,
        ensures
            r.wf(),
            r.capability == capability,
            r.page_size == page_size,
            r.endpoint == endpoint,
            r.signing_headers == signing_headers,
            r.objects@ == Seq::<Obj>::empty(),
            r.store() == Map::<Seq<u8>, Seq<u8>>::empty(),
            r.faults == 0u64,
            r.calls == 0u64,
    {
        let r = Backend {
            capability,
            objects: Vec::new(),
            page_size,
            endpoint,
            signing_headers,
            faults: 0,
            fault_kind: ErrorKind::Unexpected,
            fault_temporary: false,
            calls: 0,
        };
        proof {
            assert(r.objects@ =~= Seq::<Obj>::empty());
        }
        r
    }

    /// Script this backend to fail its next `count` calls with the given
    /// error kind, transient or not.
    pub fn script_faults(&mut self, count: u64, kind: ErrorKind, temporary: bool)
        ensures
            *final(self) == (Backend {
                faults: count,
                fault_kind: kind,
                fault_temporary: temporary,
                ..*old(self)
            }),
    {
        self.faults = count;
        self.fault_kind = kind;
        self.fault_temporary = temporary;
    }

    fn bump(&mut self)
        ensures
            *final(self) == (Backend { calls: spec_inc(old(self).calls), ..*old(self) }),
    {
        if self.calls < u64::MAX {
            self.calls = self.calls + 1;
        }
    }

    /// Perform one operation: consume a scripted fault if any remains,
    /// else act on the store, always counting the call.
    pub fn perform(&mut self, req: &OpRequest) -> (r: Result<OpOutput, OpError>)
        requires
            old(self).wf(),
        ensures
            final(self).wf(),
            Backend::spec_perform(*old(self), *req, *final(self), r),
    {
        self.bump();
        if self.faults > 0 {
            self.faults = self.faults - 1;
            return Err(OpError::new(self.fault_kind, op_of(req), self.fault_temporary));
        }
        match req {
            OpRequest::Stat { path } => {
                match find_index(&self.objects, path.as_slice()) {
                    Some(i) => {
                        proof {
                            lemma_store_value_at(self.objects@, i as int);
                        }
                        let data_len: u64 = self.objects[i].data.len() as u64;
                        Ok(OpOutput::Meta(RawMeta {
                            mode: mode_of(path.as_slice()),
                            content_length: data_len,
                            content_disposition: None,
                            content_md5: None,
                            content_type: None,
                            cache_control: None,
                            etag: None,
                            last_modified: None,
                            version: None,
                        }))
                    },
                    None => {
                        proof {
                            lemma_store_contains(self.objects@, path@);
                        }
                        Err(OpError::new(ErrorKind::NotFound, Operation::Stat, false))
                    },
                }
            },
            OpRequest::Read { path } => {
                match find_index(&self.objects, path.as_slice()) {
                    Some(i) => {
                        proof {
                            lemma_store_value_at(self.objects@, i as int);
                        }
                        Ok(OpOutput::Bytes(self.objects[i].data.clone()))
                    },
                    None => {
                        proof {
                            lemma_store_contains(self.objects@, path@);
                        }
                        Err(OpError::new(ErrorKind::NotFound, Operation::Read, false))
                    },
                }
            },
            OpRequest::Write { path, data } => {
                self.put(path.clone(), data.clone());
                Ok(OpOutput::Done)
            },
            OpRequest::Delete { path } => {
                match find_index(&self.objects, path.as_slice()) {
                    Some(i) => {
                        proof {
                            lemma_store_remove(self.objects@, i as int);
                        }
                        self.objects.remove(i);
                    },
                    None => {
                        proof {
                            lemma_store_contains(self.objects@, path@);
                            assert(self.store().remove(path@) =~= self.store());
                        }
                    },
                }
                Ok(OpOutput::Done)
            },
            OpRequest::Copy { from, to } => {
                match find_index(&self.objects, from.as_slice()) {
                    Some(i) => {
                        proof {
                            lemma_store_value_at(self.objects@, i as int);
                        }
                        let data = self.objects[i].data.clone();
                        self.put(to.clone(), data);
                        Ok(OpOutput::Done)
                    },
                    None => {
                        proof {
                            lemma_store_contains(self.objects@, from@);
                        }
                        Err(OpError::new(ErrorKind::NotFound, Operation::Copy, false))
                    },
                }
            },
            OpRequest::Rename { from, to } => {
                match find_index(&self.objects, from.as_slice()) {
                    Some(i) => {
                        proof {
                            lemma_store_value_at(self.objects@, i as int);
                            lemma_store_remove(self.objects@, i as int);
                        }
                        let data = self.objects[i].data.clone();
                        self.objects.remove(i);
                        self.put(to.clone(), data);
                        Ok(OpOutput::Done)
                    },
                    None => {
                        proof {
                            lemma_store_contains(self.objects@, from@);
                        }
                        Err(OpError::new(ErrorKind::NotFound, Operation::Rename, false))
                    },
                }
            },
            OpRequest::ListPage { path, cursor } => {
                let r = self.page(path, *cursor);
                Ok(r)
            },
            OpRequest::Presign { path, op, expire_seconds } => {
                let r = PresignedRequest::build(
                    method_for(*op),
                    self.endpoint.clone(),
                    &self.signing_headers,
                );
                Ok(OpOutput::Presigned(r))
            },
        }
    }

    /// Store bytes under a path, replacing what was there.
    fn put(&mut self, path: Vec<u8>, data: Vec<u8>)
        requires
            old(self).wf(),
        ensures
            final(self).wf(),
            final(self).store() == old(self).store().insert(path@, data@),
            *final(self) == (Backend { objects: final(self).objects, ..*old(self) }),
    {
        match find_index(&self.objects, path.as_slice()) {
            Some(i) => {
                proof {
                    lemma_store_update(self.objects@, i as int, Obj { path: path, data: data });
                }
                self.objects.set(i, Obj { path, data });
            },
            None => {
                proof {
                    assert(self.objects@.push(Obj { path: path, data: data }).drop_last()
                        =~= self.objects@);
                }
                self.objects.push(Obj { path, data });
            },
        }
    }

    /// One listing page: scan from the cursor, collecting objects under
    /// the prefix, until the page fills or the objects run out.
    fn page(&self, prefix: &Vec<u8>, cursor: usize) -> (r: OpOutput)
        requires
            self.wf(),
        ensures
            ({
                let from = spec_clamped(cursor, self.objects@.len() as int);
                let stop = spec_page_stop(self.objects@, prefix@, from, self.page_size as nat);
                match r {
                    OpOutput::Page { entries, next } => {
                        &&& entries@.map_values(|e: RawEntry| (e.path@, e.meta)) == spec_listing(
                            self.objects@.subrange(from, stop),
                            prefix@,
                        )
                        &&& next == if stop < self.objects@.len() {
                            Some(stop as usize)
                        } else {
                            Option::<usize>::None
                        }
                    },
                    _ => false,
                }
            }),
    {
        let n = self.objects.len();
        let from: usize = if cursor <= n {
            cursor
        } else {
            n
        };
        let ghost stop = spec_page_stop(self.objects@, prefix@, from as int, self.page_size as nat);
        let mut entries: Vec<RawEntry> = Vec::new();
        let mut j: usize = from;
        let mut count: usize = 0;
        proof {
            lemma_page_stop_range(self.objects@, prefix@, from as int, self.page_size as nat);
            assert(self.objects@.subrange(from as int, from as int) =~= Seq::<Obj>::empty());
        }
        while j < n && count < self.page_size
            invariant
                self.wf(),
                n == self.objects@.len(),
                from <= j <= n,
                count <= self.page_size,
                count == entries@.len(),
                stop == spec_page_stop(
                    self.objects@,
                    prefix@,
                    j as int,
                    (self.page_size - count) as nat,
                ),
                entries@.map_values(|e: RawEntry| (e.path@, e.meta)) == spec_listing(
                    self.objects@.subrange(from as int, j as int),
                    prefix@,
                ),
            decreases n - j,
        {
            let o = &self.objects[j];
            let ghost pre_entries = entries@;
            if is_prefix(prefix.as_slice(), o.path.as_slice()) {
                let data_len: u64 = o.data.len() as u64;
                entries.push(RawEntry {
                    path: o.path.clone(),
                    meta: RawMeta {
                        mode: mode_of(o.path.as_slice()),
                        content_length: data_len,
                        content_disposition: None,
                        content_md5: None,
                        content_type: None,
                        cache_control: None,
                        etag: None,
                        last_modified: None,
                        version: None,
                    },
                });
                count = count + 1;
            }
            proof {
                let sub1 = self.objects@.subrange(from as int, j + 1);
                assert(sub1.drop_last() =~= self.objects@.subrange(from as int, j as int));
                assert(sub1.last() == self.objects@[j as int]);
                assert(entries@.map_values(|e: RawEntry| (e.path@, e.meta)) =~= spec_listing(
                    sub1,
                    prefix@,
                ));
            }
            j = j + 1;
        }
        OpOutput::Page {
            entries,
            next: if j < n {
                Some(j)
            } else {
                None
            },
        }
    }
}

/// The mode a path denotes, decided by its last byte.
pub fn mode_of(path: &[u8]) -> (r: EntryMode)
    ensures
        r == spec_mode_of(path@),
{
    if path.len() > 0 && path[path.len() - 1] == 47 {
        EntryMode::Dir
    } else {
        EntryMode::File
    }
}

} // verus!
