//! The browsing workload replayed by the RDR proxy's users: for each second of
//! a recorded session, the visits `(milli, url, user)` made in that second,
//! without those to known-broken sites, in ascending order.
//!
//! A recorded session is a JSON object whose members are named by the
//! seconds (in decimal); each is an object whose members are named by the
//! users (in decimal); each of those is an array whose first element is the
//! millisecond of the visit and whose second is the site.
use crate::json::{decimal, decimal_chars, json_get, json_member, parse_json, json_of, Json};
use std::collections::HashMap;
use vstd::multiset::Multiset;
use vstd::prelude::*;
use vstd::utf8::encode_utf8;

verus! {

broadcast use {
    vstd::std_specs::hash::group_hash_axioms,
    vstd::seq_lib::group_to_multiset_ensures,
};

/// A planned visit: the millisecond within its second, the site, the user.
pub type Visit = (u64, String, usize);

/// Lexicographic order on byte strings (a proper prefix comes first).
pub open spec fn bytes_lt(a: Seq<u8>, b: Seq<u8>) -> bool
    decreases a.len(),
{
    if a.len() == 0 {
        b.len() > 0
    } else if b.len() == 0 {
        false
    } else if a[0] != b[0] {
        a[0] < b[0]
    } else {
        bytes_lt(a.drop_first(), b.drop_first())
    }
}

/// No byte string comes before itself.
pub proof fn lemma_bytes_lt_irreflexive(a: Seq<u8>)
    ensures
        !bytes_lt(a, a),
    decreases a.len(),
{
    if a.len() > 0 {
        lemma_bytes_lt_irreflexive(a.drop_first());
    }
}

/// The order on byte strings is transitive.
pub proof fn lemma_bytes_lt_transitive(a: Seq<u8>, b: Seq<u8>, c: Seq<u8>)
    requires
        bytes_lt(a, b),
        bytes_lt(b, c),
    ensures
        bytes_lt(a, c),
    decreases a.len(),
{
    if a.len() > 0 && b.len() > 0 && c.len() > 0 && a[0] == b[0] && b[0] == c[0] {
        lemma_bytes_lt_transitive(a.drop_first(), b.drop_first(), c.drop_first());
    }
}

/// The bytes of a site name, by which sites are ordered.
pub open spec fn url_bytes(url: String) -> Seq<u8> {
    encode_utf8(url@)
}

/// The order of visits: by millisecond, then by the bytes of the site, then by user.
pub open spec fn visit_lt(a: Visit, b: Visit) -> bool {
    a.0 < b.0 || (a.0 == b.0 && (bytes_lt(url_bytes(a.1), url_bytes(b.1)) || (url_bytes(a.1)
        == url_bytes(b.1) && a.2 < b.2)))
}

pub proof fn lemma_visit_lt_irreflexive(a: Visit)
    ensures
        !visit_lt(a, a),
{
    lemma_bytes_lt_irreflexive(url_bytes(a.1));
}

pub proof fn lemma_visit_lt_transitive(a: Visit, b: Visit, c: Visit)
    requires
        visit_lt(a, b),
        visit_lt(b, c),
    ensures
        visit_lt(a, c),
{
    let (x, y, z) = (url_bytes(a.1), url_bytes(b.1), url_bytes(c.1));
    if a.0 == b.0 && b.0 == c.0 {
        if bytes_lt(x, y) && bytes_lt(y, z) {
            lemma_bytes_lt_transitive(x, y, z);
        }
    }
}

/// No visit of `s` comes after one that follows it.
pub open spec fn sorted_visits(s: Seq<Visit>) -> bool {
    forall|i: int, j: int| 0 <= i < j < s.len() ==> !visit_lt(#[trigger] s[j], #[trigger] s[i])
}

/// Whether `a` and `b` hold the same bytes.
fn bytes_equal(a: &[u8], b: &[u8]) -> (res: bool)
    ensures
        res == (a@ == b@),
{
    if a.len() != b.len() {
        return false;
    }
    let mut i: usize = 0;
    while i < a.len()
        invariant
            a@.len() == b@.len(),
            i <= a@.len(),
            forall|j: int| 0 <= j < i ==> a@[j] == b@[j],
        decreases a.len() - i,
    {
        if a[i] != b[i] {
            return false;
        }
        i = i + 1;
    }
    assert(a@ =~= b@);
    true
}

/// Whether `a` comes before `b` in the lexicographic order on bytes.
fn bytes_less(a: &[u8], b: &[u8]) -> (res: bool)
    ensures
        res == bytes_lt(a@, b@),
{
    let mut i: usize = 0;
    assert(a@.skip(0) =~= a@);
    assert(b@.skip(0) =~= b@);
    while i < a.len() && i < b.len()
        invariant
            i <= a@.len(),
            i <= b@.len(),
            bytes_lt(a@, b@) == bytes_lt(a@.skip(i as int), b@.skip(i as int)),
        decreases a.len() - i,
    {
        if a[i] != b[i] {
            return a[i] < b[i];
        }
        assert(a@.skip(i as int).drop_first() =~= a@.skip(i + 1));
        assert(b@.skip(i as int).drop_first() =~= b@.skip(i + 1));
        i = i + 1;
    }
    i == a.len() && i < b.len()
}

/// Whether visit `a` comes before visit `b`.
pub fn visit_less(a: &Visit, b: &Visit) -> (res: bool)
    ensures
        res == visit_lt(*a, *b),
{
    if a.0 != b.0 {
        return a.0 < b.0;
    }
    let ab = a.1.as_str().as_bytes();
    let bb = b.1.as_str().as_bytes();
    if bytes_less(ab, bb) {
        true
    } else if bytes_equal(ab, bb) {
        a.2 < b.2
    } else {
        false
    }
}

/// The visits of `v` in ascending order.
pub fn sort_visits(v: Vec<Visit>) -> (res: Vec<Visit>)
    ensures
        sorted_visits(res@),
        res@.to_multiset() == v@.to_multiset(),
{
    let ghost orig = v@;
    let mut rest = v;
    let mut res: Vec<Visit> = Vec::new();
    loop
        invariant
            sorted_visits(res@),
            res@.to_multiset().add(rest@.to_multiset()) == orig.to_multiset(),
        ensures
            sorted_visits(res@),
            res@.to_multiset() == orig.to_multiset(),
        decreases rest@.len(),
    {
        let ghost before = rest@;
        match rest.pop() {
            None => {
                assert(rest@.to_multiset() =~= Multiset::empty());
                assert(res@.to_multiset().add(Multiset::empty()) =~= res@.to_multiset());
                break;
            },
            Some(x) => {
                assert(before =~= rest@.push(x));
                let mut p: usize = 0;
                while p < res.len() && !visit_less(&x, &res[p])
                    invariant
                        p <= res@.len(),
                        forall|j: int| 0 <= j < p ==> !visit_lt(x, #[trigger] res@[j]),
                    decreases res@.len() - p,
                {
                    p = p + 1;
                }
                let ghost old_res = res@;
                res.insert(p, x);
                proof {
                    vstd::seq_lib::to_multiset_insert(old_res, p as int, x);
                    assert forall|i: int, j: int| 0 <= i < j < res@.len() implies !visit_lt(
                        #[trigger] res@[j],
                        #[trigger] res@[i],
                    ) by {
                        if j < p {
                            assert(res@[i] == old_res[i] && res@[j] == old_res[j]);
                        } else if j == p {
                            assert(res@[i] == old_res[i]);
                        } else if i == p {
                            assert(res@[j] == old_res[j - 1]);
                            assert(visit_lt(x, old_res[p as int]));
                            if visit_lt(old_res[j - 1], x) {
                                if j - 1 == p {
                                    lemma_visit_lt_transitive(x, old_res[p as int], x);
                                    lemma_visit_lt_irreflexive(x);
                                } else {
                                    lemma_visit_lt_transitive(old_res[j - 1], x, old_res[p as int]);
                                }
                            }
                        } else if i < p {
                            assert(res@[i] == old_res[i] && res@[j] == old_res[j - 1]);
                        } else {
                            assert(res@[i] == old_res[i - 1] && res@[j] == old_res[j - 1]);
                        }
                    }
                    assert(res@.to_multiset().add(rest@.to_multiset()) =~= orig.to_multiset());
                }
            },
        }
    }
    res
}

/// Whether `url` is one of the `broken` sites.
pub open spec fn is_broken(broken: Seq<String>, url: String) -> bool {
    exists|j: int| 0 <= j < broken.len() && (#[trigger] broken[j])@ == url@
}

/// Whether `url` is one of the `broken` sites.
pub fn is_broken_url(broken: &Vec<String>, url: &String) -> (res: bool)
    ensures
        res == is_broken(broken@, *url),
{
    let mut i: usize = 0;
    while i < broken.len()
        invariant
            i <= broken@.len(),
            forall|j: int| 0 <= j < i ==> (#[trigger] broken@[j])@ != url@,
        decreases broken.len() - i,
    {
        if broken[i] == *url {
            return true;
        }
        i = i + 1;
    }
    false
}

/// Whether the record `v` of a user's visit can be read: an array of at least
/// two elements whose second is the site, and, unless the site is broken,
/// whose first is a millisecond.
pub open spec fn record_ok(v: Json, broken: Seq<String>) -> bool {
    match v {
        Json::Array(a) => a@.len() >= 2 && match a@[1] {
            Json::Str(url) => !is_broken(broken, url) ==> (a@[0] matches Json::Number(Some(_))),
            _ => false,
        },
        _ => false,
    }
}

/// The visit that the record `v` of `user` adds to the workload: none when
/// its site is broken.
pub open spec fn record_visit(v: Json, broken: Seq<String>, user: usize) -> Option<Visit> {
    match v {
        Json::Array(a) => match a@[1] {
            Json::Str(url) => if is_broken(broken, url) {
                None
            } else {
                match a@[0] {
                    Json::Number(Some(m)) => Some((m, url, user)),
                    _ => None,
                }
            },
            _ => None,
        },
        _ => None,
    }
}

/// Whether every record of the first `users` users in the second `urls_now`
/// can be read.
pub open spec fn second_ok(urls_now: Json, users: nat, broken: Seq<String>) -> bool {
    forall|u: nat|
        u < users ==> match #[trigger] json_get(urls_now, decimal(u)) {
            Some(v) => record_ok(v, broken),
            None => true,
        }
}

/// The visits that the first `upto` users make in the second `urls_now`, in
/// user order, without those to broken sites.
pub open spec fn second_visits(urls_now: Json, broken: Seq<String>, upto: int) -> Seq<Visit>
    decreases upto,
{
    if upto <= 0 {
        Seq::empty()
    } else {
        let prefix = second_visits(urls_now, broken, upto - 1);
        match json_get(urls_now, decimal((upto - 1) as nat)) {
            Some(v) => match record_visit(v, broken, (upto - 1) as usize) {
                Some(x) => prefix.push(x),
                None => prefix,
            },
            None => prefix,
        }
    }
}

/// Reads the record of one user's visit: `None` when it cannot be read, else
/// the visit it adds (none for a broken site).
pub fn read_record(v: &Json, broken: &Vec<String>, user: usize) -> (res: Option<Option<Visit>>)
    ensures
        res is Some <==> record_ok(*v, broken@),
        res matches Some(x) ==> x == record_visit(*v, broken@, user),
{
    match v {
        Json::Array(a) => {
            if a.len() < 2 {
                return None;
            }
            match &a[1] {
                Json::Str(url) => {
                    if is_broken_url(broken, url) {
                        Some(None)
                    } else {
                        match &a[0] {
                            Json::Number(Some(m)) => Some(Some((*m, url.clone(), user))),
                            _ => None,
                        }
                    }
                },
                _ => None,
            }
        },
        _ => None,
    }
}

/// The workload of one second of a session: `None` when a record cannot be
/// read, else the visits of its first `num_of_user` users to sites that are
/// not broken, in ascending order.
pub fn second_workload(urls_now: &Json, num_of_user: usize, broken: &Vec<String>) -> (res: Option<Vec<Visit>>)
    ensures
        res is Some <==> second_ok(*urls_now, num_of_user as nat, broken@),
        res matches Some(v) ==> sorted_visits(v@) && v@.to_multiset() == second_visits(
            *urls_now,
            broken@,
            num_of_user as int,
        ).to_multiset(),
{
    let mut millis: Vec<Visit> = Vec::new();
    let mut user: usize = 0;
    while user < num_of_user
        invariant
            user <= num_of_user,
            millis@ == second_visits(*urls_now, broken@, user as int),
            second_ok(*urls_now, user as nat, broken@),
        decreases num_of_user - user,
    {
        let name = decimal_chars(user);
        match json_member(urls_now, &name) {
            Some(v) => {
                match read_record(v, broken, user) {
                    Some(Some(x)) => millis.push(x),
                    Some(None) => {},
                    None => {
                        assert(!second_ok(*urls_now, num_of_user as nat, broken@)) by {
                            let u: nat = user as nat;
                            assert(json_get(*urls_now, decimal(u)) == Some(*v));
                        }
                        return None;
                    },
                }
            },
            None => {},
        }
        proof {
            assert forall|u: nat| u < user + 1 implies match #[trigger] json_get(*urls_now, decimal(u)) {
                Some(v) => record_ok(v, broken@),
                None => true,
            } by {
                if u < user {
                    assert(second_ok(*urls_now, user as nat, broken@));
                }
            }
        }
        user = user + 1;
    }
    Some(sort_visits(millis))
}

/// Whether every record of the first `secs` seconds and `users` users of the
/// session `j` can be read.
pub open spec fn session_ok(j: Json, secs: nat, users: nat, broken: Seq<String>) -> bool {
    forall|sec: nat|
        sec < secs ==> match #[trigger] json_get(j, decimal(sec)) {
            Some(s) => second_ok(s, users, broken),
            None => true,
        }
}

/// Whether `w` is the workload of the first `upto` seconds of the session `j`:
/// one entry per recorded second, holding that second's visits of the first
/// `users` users, sorted.
pub open spec fn is_session_workload(w: Map<usize, Vec<Visit>>, j: Json, upto: int, users: nat, broken: Seq<String>) -> bool {
    &&& forall|sec: usize| #[trigger]
        w.contains_key(sec) <==> (sec < upto && json_get(j, decimal(sec as nat)) is Some)
    &&& forall|sec: usize| #[trigger]
        w.contains_key(sec) ==> {
            &&& sorted_visits(w[sec]@)
            &&& w[sec]@.to_multiset() == second_visits(
                json_get(j, decimal(sec as nat)).unwrap(),
                broken,
                users as int,
            ).to_multiset()
        }
}

/// The workload of a session already parsed: `None` when a record of the
/// first `num_of_secs` seconds and `num_of_user` users cannot be read.
pub fn session_workload(j: &Json, num_of_secs: usize, num_of_user: usize, broken: &Vec<String>) -> (res: Option<HashMap<usize, Vec<Visit>>>)
    ensures
        res is Some <==> session_ok(*j, num_of_secs as nat, num_of_user as nat, broken@),
        res matches Some(w) ==> is_session_workload(w@, *j, num_of_secs as int, num_of_user as nat, broken@),
{
    let mut workload: HashMap<usize, Vec<Visit>> = HashMap::new();
    let mut sec: usize = 0;
    while sec < num_of_secs
        invariant
            sec <= num_of_secs,
            session_ok(*j, sec as nat, num_of_user as nat, broken@),
            is_session_workload(workload@, *j, sec as int, num_of_user as nat, broken@),
        decreases num_of_secs - sec,
    {
        let name = decimal_chars(sec);
        match json_member(j, &name) {
            Some(urls_now) => {
                match second_workload(urls_now, num_of_user, broken) {
                    Some(millis) => {
                        workload.insert(sec, millis);
                    },
                    None => {
                        assert(!session_ok(*j, num_of_secs as nat, num_of_user as nat, broken@)) by {
                            let s: nat = sec as nat;
                            assert(json_get(*j, decimal(s)) == Some(*urls_now));
                        }
                        return None;
                    },
                }
            },
            None => {},
        }
        proof {
            assert forall|s: nat| s < sec + 1 implies match #[trigger] json_get(*j, decimal(s)) {
                Some(x) => second_ok(x, num_of_user as nat, broken@),
                None => true,
            } by {
                if s < sec {
                    assert(session_ok(*j, sec as nat, num_of_user as nat, broken@));
                }
            }
        }
        sec = sec + 1;
    }
    Some(workload)
}

/// Whether `session` is a JSON document whose records of the first `secs`
/// seconds and `users` users can all be read.
pub open spec fn session_readable(session: Seq<u8>, secs: nat, users: nat, broken: Seq<String>) -> bool {
    json_of(session) matches Some(j) && session_ok(j, secs, users, broken)
}

/// Reads the workload of a recorded session from the bytes of its JSON file,
/// which must be a JSON document whose records of the first `num_of_secs`
/// seconds and `num_of_user` users can all be read (on any other session
/// the workload cannot be built: see [`try_rdr_load_workload`]).
pub fn rdr_load_workload(session: &[u8], num_of_secs: usize, num_of_user: usize, broken: &Vec<String>) -> (res: HashMap<usize, Vec<Visit>>)
    requires
        session_readable(session@, num_of_secs as nat, num_of_user as nat, broken@),
    ensures
        is_session_workload(
            res@,
            json_of(session@).unwrap(),
            num_of_secs as int,
            num_of_user as nat,
            broken@,
        ),
{
    match parse_json(session) {
        Some(j) => match session_workload(&j, num_of_secs, num_of_user, broken) {
            Some(w) => w,
            None => HashMap::new(),
        },
        None => HashMap::new(),
    }
}

/// Reads the workload of a recorded session from the bytes of its JSON file,
/// checking first that it can be read: `None` when the bytes are no JSON
/// document or a record of the first `num_of_secs` seconds and `num_of_user`
/// users cannot be read (the inputs on which [`rdr_load_workload`] cannot work).
pub fn try_rdr_load_workload(session: &[u8], num_of_secs: usize, num_of_user: usize, broken: &Vec<String>) -> (res: Option<HashMap<usize, Vec<Visit>>>)
    ensures
        res is Some <==> session_readable(session@, num_of_secs as nat, num_of_user as nat, broken@),
        res matches Some(w) ==> is_session_workload(
            w@,
            json_of(session@).unwrap(),
            num_of_secs as int,
            num_of_user as nat,
            broken@,
        ),
{
    match parse_json(session) {
        Some(j) => match session_workload(&j, num_of_secs, num_of_user, broken) {
            Some(_) => Some(rdr_load_workload(session, num_of_secs, num_of_user, broken)),
            None => None,
        },
        None => None,
    }
}

/// Every visit of a second's workload is to a site that is not broken, by one
/// of the first `upto` users, whose record names that site and millisecond.
pub proof fn lemma_second_visits_sound(urls_now: Json, broken: Seq<String>, upto: int)
    requires
        0 <= upto <= usize::MAX + 1,
    ensures
        forall|i: int|
            0 <= i < second_visits(urls_now, broken, upto).len() ==> {
                let v = #[trigger] second_visits(urls_now, broken, upto)[i];
                &&& v.2 < upto
                &&& json_get(urls_now, decimal(v.2 as nat)) matches Some(r) && record_visit(r, broken, v.2) == Some(v)
                &&& !is_broken(broken, v.1)
            },
    decreases upto,
{
    if upto > 0 {
        lemma_second_visits_sound(urls_now, broken, upto - 1);
    }
}

} // verus!
