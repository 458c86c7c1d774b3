//! Presigned requests: a time-limited, pre-authorized HTTP request
//! descriptor handed to clients for direct backend access.  The header
//! mapping keeps keys unique; inserting an existing key replaces its
//! value, so the mapping equals a fold of inserts over the given pairs.

use vstd::prelude::*;

verus! {

/// The operation a presigned request authorizes.
#[derive(Clone, Copy, PartialEq, Eq, Structural, Debug)]
pub enum PresignOperation {
    Stat,
    Read,
    Write,
}

/// The HTTP method of a presigned request.
#[derive(Clone, Copy, PartialEq, Eq, Structural, Debug)]
pub enum HttpMethod {
    Get,
    Head,
    Put,
}

/// The method a presigned operation is carried out with.
pub open spec fn spec_method_for(op: PresignOperation) -> HttpMethod {
    match op {
        PresignOperation::Stat => HttpMethod::Head,
        PresignOperation::Read => HttpMethod::Get,
        PresignOperation::Write => HttpMethod::Put,
    }
}

/// Which HTTP method carries out each presigned operation.
pub fn method_for(op: PresignOperation) -> (r: HttpMethod)
    ensures
        r == spec_method_for(op),
{
    match op {
        PresignOperation::Stat => HttpMethod::Head,
        PresignOperation::Read => HttpMethod::Get,
        PresignOperation::Write => HttpMethod::Put,
    }
}

/// The header mapping denoted by a sequence of key/value pairs: a fold of
/// inserts, so a later pair with the same key wins.
pub open spec fn spec_header_map(s: Seq<(String, String)>) -> Map<Seq<char>, Seq<char>>
    decreases s.len(),
{
    if s.len() == 0 {
        Map::empty()
    } else {
        spec_header_map(s.drop_last()).insert(s.last().0@, s.last().1@)
    }
}

/// No two pairs share a key.
pub open spec fn spec_unique_keys(s: Seq<(String, String)>) -> bool {
    forall|i: int, j: int| 0 <= i < j < s.len() ==> s[i].0@ != s[j].0@
}

proof fn lemma_header_map_contains(s: Seq<(String, String)>, k: Seq<char>)
    ensures
        spec_header_map(s).contains_key(k) <==> exists|i: int| 0 <= i < s.len() && s[i].0@ == k,
    decreases s.len(),
{
    if s.len() > 0 {
        lemma_header_map_contains(s.drop_last(), k);
        if s.last().0@ == k {
            assert(s[s.len() - 1].0@ == k);
        } else if spec_header_map(s).contains_key(k) {
            let i = choose|i: int| 0 <= i < s.drop_last().len() && s.drop_last()[i].0@ == k;
            assert(s[i].0@ == k);
        } else if exists|i: int| 0 <= i < s.len() && s[i].0@ == k {
            let i = choose|i: int| 0 <= i < s.len() && s[i].0@ == k;
            assert(s.drop_last()[i].0@ == k);
        }
    }
}

proof fn lemma_header_map_update(s: Seq<(String, String)>, i: int, k: String, v: String)
    requires
        spec_unique_keys(s),
        0 <= i < s.len(),
        s[i].0@ == k@,
    ensures
        spec_header_map(s.update(i, (k, v))) == spec_header_map(s).insert(k@, v@),
    decreases s.len(),
{
    let su = s.update(i, (k, v));
    if i == s.len() - 1 {
        assert(su.drop_last() =~= s.drop_last());
        assert(spec_header_map(s).insert(k@, v@) =~= spec_header_map(s.drop_last()).insert(
            k@,
            v@,
        ));
    } else {
        assert(su.drop_last() =~= s.drop_last().update(i, (k, v)));
        lemma_header_map_update(s.drop_last(), i, k, v);
        assert(s.last().0@ != k@);
        assert(spec_header_map(s.drop_last()).insert(k@, v@).insert(s.last().0@, s.last().1@)
            =~= spec_header_map(s.drop_last()).insert(s.last().0@, s.last().1@).insert(k@, v@));
        assert(su.last() == s.last());
    }
}

/// An immutable presigned request: method, target URI, and a header
/// mapping with unique, case-preserved keys.  Expiry is enforced by the
/// backend that signed it, not tracked here.
#[derive(Clone, PartialEq, Eq, Debug)]
pub struct PresignedRequest {
    pub method: HttpMethod,
    pub uri: String,
    pub headers: Vec<(String, String)>,
}

impl PresignedRequest {
    /// The headers hold no duplicate key.
    pub open spec fn wf(&self) -> bool {
        spec_unique_keys(self.headers@)
    }

    /// The header mapping this request denotes.
    pub open spec fn header_map(&self) -> Map<Seq<char>, Seq<char>> {
        spec_header_map(self.headers@)
    }

    /// Build a request from raw header pairs: each pair is inserted in
    /// order, a later value for the same key replacing the earlier one,
    /// so the result holds each key once and denotes exactly the fold of
    /// inserts over the pairs.
    pub fn build(method: HttpMethod, uri: String, pairs: &Vec<(String, String)>) -> (r:
        PresignedRequest)
        ensures
            r.wf(),
            r.method == method,
            r.uri == uri,
            r.header_map() == spec_header_map(pairs@),
            r.headers@.len() <= pairs@.len(),
    {
        let mut headers: Vec<(String, String)> = Vec::new();
        let n = pairs.len();
        for i in 0..n
            invariant
                n == pairs@.len(),
                spec_unique_keys(headers@),
                spec_header_map(headers@) == spec_header_map(pairs@.take(i as int)),
                headers@.len() <= i,
        {
            let k = &pairs[i].0;
            let v = &pairs[i].1;
            let mut found: bool = false;
            let mut at: usize = 0;
            let m = headers.len();
            for j in 0..m
                invariant
                    m == headers@.len(),
                    !found ==> forall|t: int| 0 <= t < j ==> headers@[t].0@ != k@,
                    found ==> at < headers@.len() && headers@[at as int].0@ == k@,
            {
                if !found && headers[j].0 == *k {
                    found = true;
                    at = j;
                }
            }
            proof {
                assert(pairs@.take(i + 1).drop_last() =~= pairs@.take(i as int));
                assert(pairs@.take(i + 1).last() == pairs@[i as int]);
            }
            if found {
                proof {
                    lemma_header_map_update(headers@, at as int, pairs@[i as int].0, pairs@[
                        i as int
                    ].1);
                }
                headers.set(at, (k.clone(), v.clone()));
            } else {
                proof {
                    assert(headers@.push((pairs@[i as int].0, pairs@[i as int].1)).drop_last()
                        =~= headers@);
                }
                headers.push((k.clone(), v.clone()));
            }
        }
        proof {
            assert(pairs@.take(pairs@.len() as int) =~= pairs@);
        }
        PresignedRequest { method, uri, headers }
    }

    /// A lookup in the headers: the value of the single pair holding the
    /// key, if any.
    pub fn header_value(&self, key: &String) -> (r: Option<&String>)
        requires
            self.wf(),
        ensures
            match r {
                Some(v) => self.header_map().contains_key(key@) && self.header_map()[key@] == v@,
                None => !self.header_map().contains_key(key@),
            },
    {
        proof {
            lemma_header_map_contains(self.headers@, key@);
        }
        let m = self.headers.len();
        for j in 0..m
            invariant
                m == self.headers@.len(),
                self.wf(),
                forall|t: int| 0 <= t < j ==> self.headers@[t].0@ != key@,
        {
            if self.headers[j].0 == *key {
                proof {
                    lemma_header_value_at(self.headers@, j as int);
                }
                return Some(&self.headers[j].1);
            }
        }
        None
    }
}

proof fn lemma_header_value_at(s: Seq<(String, String)>, i: int)
    requires
        spec_unique_keys(s),
        0 <= i < s.len(),
    ensures
        spec_header_map(s).contains_key(s[i].0@),
        spec_header_map(s)[s[i].0@] == s[i].1@,
    decreases s.len(),
{
    if i == s.len() - 1 {
    } else {
        lemma_header_value_at(s.drop_last(), i);
        assert(s.last().0@ != s[i].0@);
    }
}

} // verus!
