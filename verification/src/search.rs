//! The requests a search sends to the job-search service, and how the ads
//! of several requests are put together without repeating an ad.

use vstd::prelude::*;
use crate::models::JobAd;
use crate::text::{append_chars, chars_of, decimal, push_decimal, str_eq, string_from_chars};

verus! {

/// The address of the service's search.
pub open spec fn search_url_spec(base_url: Seq<char>) -> Seq<char> {
    base_url + "/search"@
}

pub fn search_url(base_url: &str) -> (r: String)
    ensures
        r@ == search_url_spec(base_url@),
{
    let mut v = chars_of(base_url);
    append_chars(&mut v, chars_of("/search").as_slice());
    string_from_chars(v.as_slice())
}

/// The query parameters of one request, as names and values.
pub open spec fn params_view(ps: Seq<(String, String)>) -> Seq<(Seq<char>, Seq<char>)> {
    ps.map_values(|p: (String, String)| (p.0@, p.1@))
}

pub open spec fn requests_view(rs: Seq<Vec<(String, String)>>) -> Seq<Seq<(Seq<char>, Seq<char>)>> {
    rs.map_values(|r: Vec<(String, String)>| params_view(r@))
}

pub open spec fn base_params(query: Seq<char>, limit: u32) -> Seq<(Seq<char>, Seq<char>)> {
    seq![("q"@, query), ("limit"@, decimal(limit as nat))]
}

/// The municipality parameters for the codes that are not empty.
pub open spec fn municipality_params(codes: Seq<Seq<char>>) -> Seq<(Seq<char>, Seq<char>)>
    decreases codes.len(),
{
    if codes.len() == 0 {
        Seq::empty()
    } else {
        municipality_params(codes.drop_last()) + if codes.last().len() > 0 {
            seq![("municipality"@, codes.last())]
        } else {
            Seq::empty()
        }
    }
}

/// One request per municipality code that is not empty.
pub open spec fn per_municipality(query: Seq<char>, limit: u32, codes: Seq<Seq<char>>) -> Seq<Seq<(Seq<char>, Seq<char>)>>
    decreases codes.len(),
{
    if codes.len() == 0 {
        Seq::empty()
    } else {
        per_municipality(query, limit, codes.drop_last()) + if codes.last().len() > 0 {
            seq![base_params(query, limit).push(("municipality"@, codes.last()))]
        } else {
            Seq::empty()
        }
    }
}

/// The requests of a search: with more than one municipality, one request
/// for each; otherwise a single request, limited to the municipality given.
pub open spec fn search_requests_spec(query: Seq<char>, limit: u32, codes: Seq<Seq<char>>) -> Seq<Seq<(Seq<char>, Seq<char>)>> {
    if codes.len() > 1 {
        per_municipality(query, limit, codes)
    } else {
        seq![base_params(query, limit) + municipality_params(codes)]
    }
}

fn param(name: &str, value: &str) -> (p: (String, String))
    ensures
        p.0@ == name@,
        p.1@ == value@,
{
    (name.to_string(), value.to_string())
}

fn limit_text(limit: u32) -> (r: String)
    ensures
        r@ == decimal(limit as nat),
{
    let mut v: Vec<char> = Vec::new();
    push_decimal(&mut v, limit as u64);
    string_from_chars(v.as_slice())
}

fn push_param(ps: &mut Vec<(String, String)>, p: (String, String))
    ensures
        params_view(final(ps)@) == params_view(old(ps)@).push((p.0@, p.1@)),
{
    let ghost before = ps@;
    let ghost pv = (p.0@, p.1@);
    ps.push(p);
    assert(params_view(ps@) =~= params_view(before).push(pv));
}

fn base_request(query: &str, limit: u32) -> (r: Vec<(String, String)>)
    ensures
        params_view(r@) == base_params(query@, limit),
{
    let mut r: Vec<(String, String)> = Vec::new();
    push_param(&mut r, param("q", query));
    push_param(&mut r, param("limit", limit_text(limit).as_str()));
    assert(params_view(r@) =~= base_params(query@, limit));
    r
}

pub open spec fn code_texts(v: Seq<String>) -> Seq<Seq<char>> {
    v.map_values(|c: String| c@)
}

/// The requests a search for `query` sends.
pub fn search_requests(query: &str, limit: u32, municipalities: &Vec<String>) -> (r: Vec<Vec<(String, String)>>)
    ensures
        requests_view(r@) == search_requests_spec(query@, limit, code_texts(municipalities@)),
{
    let ghost codes = code_texts(municipalities@);
    let mut i: usize = 0;
    assert(codes.take(0) =~= Seq::<Seq<char>>::empty());
    if municipalities.len() > 1 {
        let mut rs: Vec<Vec<(String, String)>> = Vec::new();
        assert(requests_view(rs@) =~= per_municipality(query@, limit, codes.take(0)));
        while i < municipalities.len()
            invariant
                i <= municipalities@.len(),
                codes == code_texts(municipalities@),
                requests_view(rs@) == per_municipality(query@, limit, codes.take(i as int)),
            decreases municipalities.len() - i,
        {
            assert(codes.take(i + 1).drop_last() =~= codes.take(i as int));
            assert(codes.take(i + 1).last() == municipalities@[i as int]@);
            let ghost before = rs@;
            if !municipalities[i].as_str().is_empty() {
                let mut req = base_request(query, limit);
                push_param(&mut req, param("municipality", municipalities[i].as_str()));
                let ghost rv = params_view(req@);
                rs.push(req);
                assert(requests_view(rs@) =~= requests_view(before).push(rv));
            }
            assert(requests_view(rs@) =~= per_municipality(query@, limit, codes.take(i + 1)));
            i = i + 1;
        }
        assert(codes.take(codes.len() as int) =~= codes);
        rs
    } else {
        let mut req = base_request(query, limit);
        let ghost start = params_view(req@);
        assert(start =~= start + municipality_params(codes.take(0)));
        while i < municipalities.len()
            invariant
                i <= municipalities@.len(),
                codes == code_texts(municipalities@),
                start == base_params(query@, limit),
                params_view(req@) == start + municipality_params(codes.take(i as int)),
            decreases municipalities.len() - i,
        {
            assert(codes.take(i + 1).drop_last() =~= codes.take(i as int));
            assert(codes.take(i + 1).last() == municipalities@[i as int]@);
            if !municipalities[i].as_str().is_empty() {
                push_param(&mut req, param("municipality", municipalities[i].as_str()));
            }
            assert(params_view(req@) =~= start + municipality_params(codes.take(i + 1)));
            i = i + 1;
        }
        assert(codes.take(codes.len() as int) =~= codes);
        let mut rs: Vec<Vec<(String, String)>> = Vec::new();
        let ghost rv = params_view(req@);
        rs.push(req);
        assert(requests_view(rs@) =~= seq![rv]);
        rs
    }
}

// ---------------------------------------------------------------------------
// Putting the ads of several requests together.
// ---------------------------------------------------------------------------

pub open spec fn ad_ids(ads: Seq<JobAd>) -> Seq<Seq<char>> {
    ads.map_values(|a: JobAd| a.id@)
}

/// The ads gathered so far followed by those of a new batch whose ids have
/// not been seen yet, the first ad of each id kept.
pub open spec fn add_unseen_spec(acc: Seq<JobAd>, batch: Seq<JobAd>) -> Seq<JobAd>
    decreases batch.len(),
{
    if batch.len() == 0 {
        acc
    } else {
        let r = add_unseen_spec(acc, batch.drop_last());
        if ad_ids(r).contains(batch.last().id@) { r } else { r.push(batch.last()) }
    }
}

fn has_id(ads: &Vec<JobAd>, id: &str) -> (b: bool)
    ensures
        b == ad_ids(ads@).contains(id@),
{
    let mut i: usize = 0;
    while i < ads.len()
        invariant
            i <= ads@.len(),
            forall|j: int| 0 <= j < i ==> ads@[j].id@ != id@,
        decreases ads.len() - i,
    {
        if str_eq(ads[i].id.as_str(), id) {
            assert(ad_ids(ads@)[i as int] == id@);
            return true;
        }
        i = i + 1;
    }
    assert(!ad_ids(ads@).contains(id@)) by {
        if ad_ids(ads@).contains(id@) {
            let k = choose|k: int| 0 <= k < ad_ids(ads@).len() && ad_ids(ads@)[k] == id@;
            assert(ads@[k].id@ == id@);
        }
    }
    false
}

/// Adds the ads of a batch that the gathered ads do not hold yet; no id is
/// then held twice where none was before.
pub fn add_unseen(acc: Vec<JobAd>, batch: Vec<JobAd>) -> (r: Vec<JobAd>)
    ensures
        r@ == add_unseen_spec(acc@, batch@),
        ad_ids(acc@).no_duplicates() ==> ad_ids(r@).no_duplicates(),
{
    let ghost b = batch@;
    let ghost a0 = acc@;
    let mut all = acc;
    let mut rest = batch;
    let ghost mut i: int = 0;
    assert(b.take(0) =~= Seq::<JobAd>::empty());
    while rest.len() > 0
        invariant
            0 <= i <= b.len(),
            rest@ == b.skip(i),
            all@ == add_unseen_spec(a0, b.take(i)),
            ad_ids(a0).no_duplicates() ==> ad_ids(all@).no_duplicates(),
        decreases rest@.len(),
    {
        let ad = rest.remove(0);
        assert(ad == b[i]);
        assert(b.take(i + 1).drop_last() =~= b.take(i));
        assert(b.take(i + 1).last() == ad);
        assert(rest@ =~= b.skip(i + 1));
        if !has_id(&all, ad.id.as_str()) {
            let ghost before = all@;
            let ghost idv = ad.id@;
            all.push(ad);
            assert(ad_ids(all@) =~= ad_ids(before).push(idv));
        }
        proof { i = i + 1; }
    }
    assert(b.take(b.len() as int) =~= b);
    all
}

} // verus!
