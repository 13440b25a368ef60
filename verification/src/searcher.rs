use vstd::prelude::*;

verus! {

pub const NUM_RESULTS_PER_PAGE: usize = 20;

/// Host preferences applied to ranking: hosts the user likes, dislikes or
/// has blocked.
pub struct HostRankings {
    pub liked: Vec<String>,
    pub disliked: Vec<String>,
    pub blocked: Vec<String>,
}

impl HostRankings {
    pub fn empty() -> (r: HostRankings)
        ensures
            r.liked@ == Seq::<String>::empty(),
            r.disliked@ == Seq::<String>::empty(),
            r.blocked@ == Seq::<String>::empty(),
    {
        HostRankings { liked: Vec::new(), disliked: Vec::new(), blocked: Vec::new() }
    }

    /// Appends the other rankings' entries after this one's.
    pub fn merge_into(&mut self, other: HostRankings)
        ensures
            final(self).liked@ == old(self).liked@ + other.liked@,
            final(self).disliked@ == old(self).disliked@ + other.disliked@,
            final(self).blocked@ == old(self).blocked@ + other.blocked@,
    {
        let mut other = other;
        self.liked.append(&mut other.liked);
        self.disliked.append(&mut other.disliked);
        self.blocked.append(&mut other.blocked);
    }
}

/// A field-for-field copy.
fn clone_rankings(r: &HostRankings) -> (c: HostRankings)
    ensures
        c.liked@ == r.liked@,
        c.disliked@ == r.disliked@,
        c.blocked@ == r.blocked@,
{
    HostRankings {
        liked: clone_strings(&r.liked),
        disliked: clone_strings(&r.disliked),
        blocked: clone_strings(&r.blocked),
    }
}

fn clone_strings(v: &Vec<String>) -> (c: Vec<String>)
    ensures
        c@ == v@,
{
    let mut c: Vec<String> = Vec::new();
    let mut i: usize = 0;
    while i < v.len()
        invariant
            i <= v@.len(),
            c@ == v@.subrange(0, i as int),
        decreases v@.len() - i,
    {
        c.push(v[i].clone());
        assert(v@.subrange(0, i as int).push(v@[i as int]) =~= v@.subrange(0, i + 1));
        i = i + 1;
    }
    proof {
        assert(v@.subrange(0, v@.len() as int) =~= v@);
    }
    c
}

/// A search region restriction.
#[derive(Clone, Copy, PartialEq, Eq, Structural, Debug)]
pub enum Region {
    All,
    Denmark,
    France,
    Germany,
    Spain,
    Us,
}

/// How much of each page body the caller wants returned.
#[derive(Clone, Copy, PartialEq, Eq, Structural, Debug)]
pub enum ReturnBody {
    All,
    Truncated(usize),
}

/// A ranking-rule set; the part this pipeline reads is the host rankings
/// it carries.
pub struct Optic {
    pub host_rankings: HostRankings,
}

/// Per-signal ranking coefficient overrides, keyed by signal ordinal and
/// held in thousandths.
pub struct SignalCoefficients {
    pub coefficients: Vec<(u64, i64)>,
}

impl Default for SignalCoefficients {
    fn default() -> (r: Self)
        ensures
            r.coefficients@ == Seq::<(u64, i64)>::empty(),
    {
        SignalCoefficients { coefficients: Vec::new() }
    }
}

/// A search request as producers hand it to a searcher.
pub struct SearchQuery {
    pub query: String,
    pub page: usize,
    pub num_results: usize,
    pub selected_region: Option<Region>,
    pub optic: Option<Optic>,
    pub host_rankings: Option<HostRankings>,
    pub return_ranking_signals: bool,
    pub safe_search: bool,
    pub count_results_exact: bool,
    pub return_body: Option<ReturnBody>,
    pub return_structured_data: bool,
    pub signal_coefficients: SignalCoefficients,
}

impl Default for SearchQuery {
    fn default() -> (r: Self)
        ensures
            r.query@ == Seq::<char>::empty(),
            r.page == 0,
            r.num_results == NUM_RESULTS_PER_PAGE,
            r.selected_region is None,
            r.optic is None,
            r.host_rankings is None,
            !r.return_ranking_signals,
            !r.safe_search,
            !r.count_results_exact,
            r.return_body is None,
            !r.return_structured_data,
            r.signal_coefficients.coefficients@ == Seq::<(u64, i64)>::empty(),
    {
        SearchQuery {
            query: String::new(),
            page: 0,
            num_results: NUM_RESULTS_PER_PAGE,
            selected_region: None,
            optic: None,
            host_rankings: None,
            return_ranking_signals: false,
            safe_search: false,
            count_results_exact: false,
            return_body: None,
            return_structured_data: false,
            signal_coefficients: SignalCoefficients { coefficients: Vec::new() },
        }
    }
}

/// The liked hosts a query's own rankings and its optic contribute, in
/// merge order.
pub open spec fn spec_merged_liked(q: SearchQuery) -> Seq<String> {
    (match q.host_rankings {
        Some(h) => h.liked@,
        None => Seq::empty(),
    }) + (match q.optic {
        Some(o) => o.host_rankings.liked@,
        None => Seq::empty(),
    })
}

pub open spec fn spec_merged_disliked(q: SearchQuery) -> Seq<String> {
    (match q.host_rankings {
        Some(h) => h.disliked@,
        None => Seq::empty(),
    }) + (match q.optic {
        Some(o) => o.host_rankings.disliked@,
        None => Seq::empty(),
    })
}

pub open spec fn spec_merged_blocked(q: SearchQuery) -> Seq<String> {
    (match q.host_rankings {
        Some(h) => h.blocked@,
        None => Seq::empty(),
    }) + (match q.optic {
        Some(o) => o.host_rankings.blocked@,
        None => Seq::empty(),
    })
}

impl SearchQuery {
    pub fn is_empty(&self) -> (r: bool)
        ensures
            r == (self.query@.len() == 0),
    {
        self.query.as_str().is_empty()
    }

    pub fn signal_coefficients(&self) -> (r: SignalCoefficients)
        ensures
            r.coefficients@ == self.signal_coefficients.coefficients@,
    {
        let mut coefficients: Vec<(u64, i64)> = Vec::new();
        let mut i: usize = 0;
        while i < self.signal_coefficients.coefficients.len()
            invariant
                i <= self.signal_coefficients.coefficients@.len(),
                coefficients@ == self.signal_coefficients.coefficients@.subrange(0, i as int),
            decreases self.signal_coefficients.coefficients@.len() - i,
        {
            coefficients.push(self.signal_coefficients.coefficients[i]);
            assert(self.signal_coefficients.coefficients@.subrange(0, i as int).push(
                self.signal_coefficients.coefficients@[i as int],
            ) =~= self.signal_coefficients.coefficients@.subrange(0, i + 1));
            i = i + 1;
        }
        proof {
            assert(self.signal_coefficients.coefficients@.subrange(
                0,
                self.signal_coefficients.coefficients@.len() as int,
            ) =~= self.signal_coefficients.coefficients@);
        }
        SignalCoefficients { coefficients }
    }

    /// The query's own host rankings merged with the ones its optic
    /// carries, in that order.
    pub fn host_rankings(&self) -> (r: HostRankings)
        ensures
            r.liked@ == spec_merged_liked(*self),
            r.disliked@ == spec_merged_disliked(*self),
            r.blocked@ == spec_merged_blocked(*self),
    {
        let mut rankings = HostRankings::empty();
        if let Some(host_rankings) = &self.host_rankings {
            rankings.merge_into(clone_rankings(host_rankings));
        }
        if let Some(optic) = &self.optic {
            rankings.merge_into(clone_rankings(&optic.host_rankings));
        }
        proof {
            assert(rankings.liked@ =~= spec_merged_liked(*self));
            assert(rankings.disliked@ =~= spec_merged_disliked(*self));
            assert(rankings.blocked@ =~= spec_merged_blocked(*self));
        }
        rankings
    }

    /// Whether ranking needs backlinks: some host is liked or disliked.
    pub fn fetch_backlinks(&self) -> (r: bool)
        ensures
            r == (spec_merged_liked(*self).len() > 0 || spec_merged_disliked(*self).len() > 0),
    {
        let host_rankings = self.host_rankings();
        host_rankings.liked.len() > 0 || host_rankings.disliked.len() > 0
    }

    pub fn text(&self) -> (r: &str)
        ensures
            r@ == self.query@,
    {
        self.query.as_str()
    }

    /// The index of the first result on the requested page.
    pub fn offset(&self) -> (r: usize)
        requires
            self.page * self.num_results <= usize::MAX,
        ensures
            r == self.page * self.num_results,
    {
        self.page * self.num_results
    }

    pub fn num_results(&self) -> (r: usize)
        ensures
            r == self.num_results,
    {
        self.num_results
    }
}

/// A count of matching documents, exact or approximated.
#[derive(Clone, Copy, PartialEq, Eq, Structural, Debug)]
pub enum Count {
    Exact(u64),
    Approximate(u64),
}

/// One webpage as shown to the user.
pub struct DisplayedWebpage {
    pub title: String,
    pub url: String,
    pub snippet: String,
}

/// A bang redirect picked instead of a result page.
pub struct BangHit {
    pub redirect_to: String,
}

/// A ranked page as recall stages hand it onward.
pub struct RankingWebpage {
    pub page_id: u64,
    pub score_thousandths: i64,
}

pub struct WebsitesResult {
    pub webpages: Vec<DisplayedWebpage>,
    pub num_hits: Count,
    pub search_duration_ms: u128,
    pub has_more_results: bool,
}

pub enum SearchResult {
    Websites(WebsitesResult),
    Bang(Box<BangHit>),
}

pub struct InitialWebsiteResult {
    pub num_websites: Count,
    pub websites: Vec<RankingWebpage>,
}

impl SearchResult {
    /// The inner websites result. A bang redirect must not be passed.
    pub fn into_websites_result(self) -> (r: WebsitesResult)
        requires
            self is Websites,
        ensures
            self == SearchResult::Websites(r),
    {
        match self {
            Self::Websites(result) => result,
            Self::Bang(_) => vstd::pervasive::unreached(),
        }
    }
}

} // verus!
