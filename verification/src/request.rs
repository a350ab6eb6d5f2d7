//! Per-connection request state: method, path, query, headers, the fully
//! buffered body, and an extension map used to pass matched path parameters
//! and business values between hook stages. One request is owned by the one
//! worker serving its connection.

use vstd::prelude::*;

use crate::router::Method;
use vstd::string::StringSliceAdditionalSpecFns;

verus! {

/// The value bound to `key` in a sequence of (key, value) pairs: the most
/// recently inserted binding wins.
pub open spec fn spec_pairs_lookup(s: Seq<(Seq<u8>, Seq<u8>)>, key: Seq<u8>) -> Option<Seq<u8>>
    decreases s.len(),
{
    if s.len() == 0 {
        None::<Seq<u8>>
    } else if s.last().0 == key {
        Some(s.last().1)
    } else {
        spec_pairs_lookup(s.drop_last(), key)
    }
}

/// The views of a sequence of (key, value) byte pairs.
pub open spec fn kv_views(v: Seq<(Vec<u8>, Vec<u8>)>) -> Seq<(Seq<u8>, Seq<u8>)> {
    v.map_values(|p: (Vec<u8>, Vec<u8>)| (p.0@, p.1@))
}

/// Finds the value bound to `key` among `pairs`, preferring the latest
/// binding, as `spec_pairs_lookup` states.
pub fn pairs_lookup<'a>(pairs: &'a Vec<(Vec<u8>, Vec<u8>)>, key: &[u8]) -> (r: Option<
    &'a Vec<u8>,
>)
    ensures
        match r {
            Some(v) => spec_pairs_lookup(kv_views(pairs@), key@) == Some(v@),
            None => spec_pairs_lookup(kv_views(pairs@), key@) is None,
        },
{
    let ghost kv = kv_views(pairs@);
    let n = pairs.len();
    let mut k: usize = n;
    proof {
        assert(kv.subrange(0, kv.len() as int) =~~= kv);
    }
    while k > 0
        invariant
            k <= n,
            n == pairs@.len(),
            kv == kv_views(pairs@),
            spec_pairs_lookup(kv, key@) == spec_pairs_lookup(kv.subrange(0, k as int), key@),
        decreases k,
    {
        let ghost pre = kv.subrange(0, k as int);
        proof {
            assert(pre.last() == kv[k - 1]);
            assert(pre.drop_last() =~~= kv.subrange(0, k as int - 1));
        }
        if crate::recognizer::bytes_eq(pairs[k - 1].0.as_slice(), key) {
            return Some(&pairs[k - 1].1);
        }
        k -= 1;
    }
    proof {
        assert(kv.subrange(0, 0).len() == 0);
    }
    None
}

/// One buffered request.
pub struct SapperRequest {
    method: Method,
    path: Vec<u8>,
    query: Option<Vec<u8>>,
    headers: Vec<(Vec<u8>, Vec<u8>)>,
    body: Option<Vec<u8>>,
    ext: Vec<(Vec<u8>, Vec<u8>)>,
}

/// Model of a request.
#[verifier::ext_equal]
pub struct RequestView {
    pub method: Method,
    pub path: Seq<u8>,
    pub query: Option<Seq<u8>>,
    pub headers: Seq<(Seq<u8>, Seq<u8>)>,
    pub body: Option<Seq<u8>>,
    pub ext: Seq<(Seq<u8>, Seq<u8>)>,
}

impl View for SapperRequest {
    type V = RequestView;

    closed spec fn view(&self) -> RequestView {
        RequestView {
            method: self.method,
            path: self.path@,
            query: match self.query {
                Some(q) => Some(q@),
                None => None::<Seq<u8>>,
            },
            headers: kv_views(self.headers@),
            body: match self.body {
                Some(b) => Some(b@),
                None => None::<Seq<u8>>,
            },
            ext: kv_views(self.ext@),
        }
    }
}

impl SapperRequest {
    /// A fresh request around the transport-supplied parts; the extension
    /// map starts empty.
    pub fn new(
        method: Method,
        path: Vec<u8>,
        query: Option<Vec<u8>>,
        headers: Vec<(Vec<u8>, Vec<u8>)>,
        body: Option<Vec<u8>>,
    ) -> (r: SapperRequest)
        ensures
            r@.method == method,
            r@.path == path@,
            r@.query == (match query {
                Some(q) => Some(q@),
                None => None::<Seq<u8>>,
            }),
            r@.headers == kv_views(headers@),
            r@.body == (match body {
                Some(b) => Some(b@),
                None => None::<Seq<u8>>,
            }),
            r@.ext == Seq::<(Seq<u8>, Seq<u8>)>::empty(),
    {
        let r = SapperRequest { method, path, query, headers, body, ext: Vec::new() };
        proof {
            assert(r@.ext =~~= Seq::<(Seq<u8>, Seq<u8>)>::empty());
        }
        r
    }

    /// The request's method.
    pub fn method(&self) -> (r: Method)
        ensures
            r == self@.method,
    {
        self.method
    }

    /// The request's path.
    pub fn path(&self) -> (r: &Vec<u8>)
        ensures
            r@ == self@.path,
    {
        &self.path
    }

    /// The request's query string, if one came with the URI.
    pub fn query(&self) -> (r: Option<&Vec<u8>>)
        ensures
            match r {
                Some(q) => self@.query == Some(q@),
                None => self@.query is None,
            },
    {
        match &self.query {
            Some(q) => Some(q),
            None => None,
        }
    }

    /// Path and query together, as the URI carried them.
    pub fn uri(&self) -> (r: (&Vec<u8>, Option<&Vec<u8>>))
        ensures
            r.0@ == self@.path,
            match r.1 {
                Some(q) => self@.query == Some(q@),
                None => self@.query is None,
            },
    {
        (
            &self.path,
            match &self.query {
                Some(q) => Some(q),
                None => None,
            },
        )
    }

    /// The request's headers, in transport order.
    pub fn headers(&self) -> (r: &Vec<(Vec<u8>, Vec<u8>)>)
        ensures
            kv_views(r@) == self@.headers,
    {
        &self.headers
    }

    /// The value of the named header, if present (byte-exact match,
    /// preferring the latest occurrence).
    pub fn header_value(&self, name: &[u8]) -> (r: Option<&Vec<u8>>)
        ensures
            match r {
                Some(v) => spec_pairs_lookup(self@.headers, name@) == Some(v@),
                None => spec_pairs_lookup(self@.headers, name@) is None,
            },
    {
        pairs_lookup(&self.headers, name)
    }

    /// The fully buffered body, if the transport delivered one.
    pub fn body(&self) -> (r: &Option<Vec<u8>>)
        ensures
            match r {
                Some(b) => self@.body == Some(b@),
                None => self@.body is None,
            },
    {
        &self.body
    }

    /// The extension map, in insertion order.
    pub fn ext(&self) -> (r: &Vec<(Vec<u8>, Vec<u8>)>)
        ensures
            kv_views(r@) == self@.ext,
    {
        &self.ext
    }

    /// Binds `key` to `value` in the extension map, shadowing any earlier
    /// binding of the same key.
    pub fn ext_insert(&mut self, key: Vec<u8>, value: Vec<u8>) -> (r: ())
        ensures
            final(self)@ == (RequestView { ext: old(self)@.ext.push((key@, value@)), ..old(self)@ }),
    {
        let ghost old_ext = kv_views(self.ext@);
        let ghost kv = (key@, value@);
        self.ext.push((key, value));
        proof {
            assert(kv_views(self.ext@) =~~= old_ext.push(kv));
        }
    }

    /// The value bound to `key` in the extension map, latest binding first.
    pub fn ext_get(&self, key: &[u8]) -> (r: Option<&Vec<u8>>)
        ensures
            match r {
                Some(v) => spec_pairs_lookup(self@.ext, key@) == Some(v@),
                None => spec_pairs_lookup(self@.ext, key@) is None,
            },
    {
        pairs_lookup(&self.ext, key)
    }

    /// Inserts every (name, value) pair — matched path parameters — into
    /// the extension map, in order.
    pub fn ext_insert_all(&mut self, pairs: Vec<(Vec<u8>, Vec<u8>)>) -> (r: ())
        ensures
            final(self)@ == (RequestView { ext: old(self)@.ext + kv_views(pairs@), ..old(self)@ }),
    {
        let ghost target = kv_views(self.ext@) + kv_views(pairs@);
        let ghost pv = kv_views(pairs@);
        let n = pairs.len();
        let mut i: usize = 0;
        while i < n
            invariant
                i <= n,
                n == pairs@.len(),
                pv == kv_views(pairs@),
                target == old(self)@.ext + pv,
                target == kv_views(self.ext@) + pv.subrange(i as int, pv.len() as int),
                self@ == (RequestView { ext: self@.ext, ..old(self)@ }),
            decreases n - i,
        {
            let ghost old_ext = kv_views(self.ext@);
            let (k, v) = {
                let pair = &pairs[i];
                (crate::recognizer::copy_bytes(&pair.0), crate::recognizer::copy_bytes(&pair.1))
            };
            self.ext.push((k, v));
            proof {
                assert(kv_views(self.ext@) =~~= old_ext.push(pv[i as int]));
                assert(pv.subrange(i as int, pv.len() as int).drop_first() =~~= pv.subrange(
                    i as int + 1,
                    pv.len() as int,
                ));
                assert(old_ext + pv.subrange(i as int, pv.len() as int) =~~= kv_views(self.ext@)
                    + pv.subrange(i as int + 1, pv.len() as int));
            }
            i += 1;
        }
        proof {
            assert(pv.subrange(i as int, pv.len() as int).len() == 0);
            assert(kv_views(self.ext@) + pv.subrange(i as int, pv.len() as int) =~~= kv_views(
                self.ext@,
            ));
        }
    }
}

} // verus!
