//! Lists of chains: which chains a query asks for, in which order, and which page of them.
use crate::order;
use crate::order::Ranked;
use crate::text;
use vstd::prelude::*;

verus! {

/// How many rows a page has unless the query says otherwise.
pub const DEFAULT_PAGE: usize = 100;

/// How many rows a page has at most.
pub const LARGEST_PAGE: usize = 200;

/// What a list of chains is asked for.
#[derive(Debug)]
pub struct ChainQuery {
    pub state: Option<String>,
    /// `all` for the whole catalog in the public list.
    pub scope: Option<String>,
    pub q: Option<String>,
    pub testnet: Option<bool>,
    pub sort: Option<String>,
    pub limit: Option<usize>,
    pub offset: Option<usize>,
}

impl Default for ChainQuery {
    fn default() -> (q: Self)
        ensures
            q.state is None,
            q.scope is None,
            q.q is None,
            q.testnet is None,
            q.sort is None,
            q.limit is None,
            q.offset is None,
    {
        ChainQuery {
            state: None,
            scope: None,
            q: None,
            testnet: None,
            sort: None,
            limit: None,
            offset: None,
        }
    }
}

/// The parts of a row that lists are searched and sorted by.
pub struct RowFacts {
    pub chain_id: u64,
    pub name: String,
    pub short_name: Option<String>,
    pub state: String,
    pub is_testnet: bool,
    pub ingress_total: u64,
    pub active: usize,
    pub endpoints: usize,
}

/// Where a state stands in the default order.
pub open spec fn rank_of(state: Seq<char>) -> u8 {
    if state == "pinned"@ {
        0
    } else if state == "hot"@ {
        1
    } else if state == "dormant"@ {
        2
    } else if state == "disabled"@ {
        3
    } else {
        4
    }
}

fn rank(state: &str) -> (r: u8)
    ensures
        r == rank_of(state@),
{
    if text::same(state, "pinned") {
        0
    } else if text::same(state, "hot") {
        1
    } else if text::same(state, "dormant") {
        2
    } else if text::same(state, "disabled") {
        3
    } else {
        4
    }
}

/// The default order of chains: by state, then chains with active endpoints, chains with endpoints, main
/// networks, traffic from most to least, and the id.
#[derive(Clone, Copy, Debug, PartialEq, Eq, Structural)]
pub struct Priority {
    pub rank: u8,
    pub idle: bool,
    pub bare: bool,
    pub testnet: bool,
    pub ingress_total: u64,
    pub chain_id: u64,
}

impl Ranked for Priority {
    open spec fn precedes(&self, other: &Self) -> bool {
        if self.rank != other.rank {
            self.rank < other.rank
        } else if self.idle != other.idle {
            !self.idle
        } else if self.bare != other.bare {
            !self.bare
        } else if self.testnet != other.testnet {
            !self.testnet
        } else if self.ingress_total != other.ingress_total {
            self.ingress_total > other.ingress_total
        } else {
            self.chain_id < other.chain_id
        }
    }

    proof fn rank_laws(a: &Self, b: &Self, c: &Self) {
    }

    fn before(&self, other: &Self) -> (r: bool) {
        if self.rank != other.rank {
            self.rank < other.rank
        } else if self.idle != other.idle {
            !self.idle
        } else if self.bare != other.bare {
            !self.bare
        } else if self.testnet != other.testnet {
            !self.testnet
        } else if self.ingress_total != other.ingress_total {
            self.ingress_total > other.ingress_total
        } else {
            self.chain_id < other.chain_id
        }
    }
}

/// A number that sorts from most to least.
#[derive(Clone, Copy, Debug, PartialEq, Eq, Structural)]
pub struct Descending {
    pub n: u64,
}

impl Ranked for Descending {
    open spec fn precedes(&self, other: &Self) -> bool {
        self.n > other.n
    }

    proof fn rank_laws(a: &Self, b: &Self, c: &Self) {
    }

    fn before(&self, other: &Self) -> (r: bool) {
        self.n > other.n
    }
}

pub open spec fn priority_of(f: RowFacts) -> Priority {
    Priority {
        rank: rank_of(f.state@),
        idle: f.active == 0,
        bare: f.endpoints == 0,
        testnet: f.is_testnet,
        ingress_total: f.ingress_total,
        chain_id: f.chain_id,
    }
}

pub fn priority_key(f: &RowFacts) -> (p: Priority)
    ensures
        p == priority_of(*f),
{
    Priority {
        rank: rank(f.state.as_str()),
        idle: f.active == 0,
        bare: f.endpoints == 0,
        testnet: f.is_testnet,
        ingress_total: f.ingress_total,
        chain_id: f.chain_id,
    }
}

/// How a list is sorted.
#[derive(Clone, Copy, Debug, PartialEq, Eq, Structural)]
pub enum SortMode {
    Name,
    Traffic,
    ChainId,
    Priority,
}

pub open spec fn sort_mode(sort: Option<String>) -> SortMode {
    match sort {
        Some(s) => if s@ == "name"@ {
            SortMode::Name
        } else if s@ == "traffic"@ {
            SortMode::Traffic
        } else if s@ == "chainId"@ {
            SortMode::ChainId
        } else {
            SortMode::Priority
        },
        None => SortMode::Priority,
    }
}

fn mode_of(sort: &Option<String>) -> (m: SortMode)
    ensures
        m == sort_mode(*sort),
{
    match sort {
        Some(s) => if text::same(s.as_str(), "name") {
            SortMode::Name
        } else if text::same(s.as_str(), "traffic") {
            SortMode::Traffic
        } else if text::same(s.as_str(), "chainId") {
            SortMode::ChainId
        } else {
            SortMode::Priority
        },
        None => SortMode::Priority,
    }
}

/// `perm` lists the rows in the order of the mode; rows that rank alike keep their order.
pub open spec fn sorts(mode: SortMode, rows: Seq<RowFacts>, perm: Seq<usize>) -> bool {
    match mode {
        SortMode::Name => order::is_stable_order(rows.map_values(|f: RowFacts| f.name), perm),
        SortMode::Traffic => order::is_stable_order(
            rows.map_values(|f: RowFacts| Descending { n: f.ingress_total }),
            perm,
        ),
        SortMode::ChainId => order::is_stable_order(
            rows.map_values(|f: RowFacts| f.chain_id),
            perm,
        ),
        SortMode::Priority => order::is_stable_order(
            rows.map_values(|f: RowFacts| priority_of(f)),
            perm,
        ),
    }
}

pub open spec fn contains_lowered(s: Seq<char>, q: Seq<char>) -> bool {
    text::occurs(text::lowered(s), q)
}

/// Whether a row is found by a search text.
pub open spec fn is_found(f: RowFacts, q: Seq<char>) -> bool {
    let q = text::lowered(q);
    ||| text::occurs(text::decimal_digits(f.chain_id as nat), q)
    ||| contains_lowered(f.name@, q)
    ||| (f.short_name matches Some(s) && contains_lowered(s@, q))
}

/// Whether a row is asked for.
pub open spec fn is_asked_for(f: RowFacts, query: ChainQuery) -> bool {
    &&& (query.state matches Some(s) && s@ != "all"@ ==> text::lowered(f.state@)
        == text::lowered(query.state->0@))
    &&& (query.testnet matches Some(t) ==> f.is_testnet == t)
    &&& (query.q matches Some(q) ==> is_found(f, q@))
}

/// In the public list, only chains that can be used are shown, unless the whole catalog is asked for or
/// something is searched for.
pub open spec fn opens_catalog(query: ChainQuery) -> bool {
    ||| (query.scope matches Some(s) && s@ == "all"@)
    ||| (query.q matches Some(q) && text::trimmed(q@).len() > 0)
}

pub open spec fn is_listed(f: RowFacts, query: ChainQuery, public: bool) -> bool {
    &&& is_asked_for(f, query)
    &&& (public ==> opens_catalog(query) || f.state@ == "available"@)
}

/// The places of the rows that are listed, in their order.
pub open spec fn listed_places(rows: Seq<RowFacts>, query: ChainQuery, public: bool) -> Seq<usize>
    decreases rows.len(),
{
    if rows.len() == 0 {
        Seq::empty()
    } else {
        let before = listed_places(rows.drop_last(), query, public);
        if is_listed(rows.last(), query, public) {
            before.push((rows.len() - 1) as usize)
        } else {
            before
        }
    }
}

/// The rows at the given places.
pub open spec fn rows_at(rows: Seq<RowFacts>, places: Seq<usize>) -> Seq<RowFacts> {
    places.map_values(|i: usize| rows[i as int])
}

pub open spec fn page_start(query: ChainQuery, total: int) -> int {
    match query.offset {
        Some(n) if n < total => n as int,
        Some(_) => total,
        None => 0,
    }
}

pub open spec fn page_size(query: ChainQuery) -> int {
    match query.limit {
        Some(n) if n < LARGEST_PAGE => n as int,
        Some(_) => LARGEST_PAGE as int,
        None => DEFAULT_PAGE as int,
    }
}

/// How many rows a page has.
pub open spec fn page_len(query: ChainQuery, total: int) -> int {
    let left = total - page_start(query, total);
    if left < page_size(query) {
        left
    } else {
        page_size(query)
    }
}

/// A page of a list: how many rows there are in all, and the places of those on the page.
#[derive(Debug)]
pub struct Page {
    pub total: usize,
    pub places: Vec<usize>,
}

impl Page {
    /// The page is the one that the query asks for.
    pub open spec fn is_for(self, rows: Seq<RowFacts>, query: ChainQuery, public: bool) -> bool {
        let kept = listed_places(rows, query, public);
        let start = page_start(query, kept.len() as int);
        &&& self.total == kept.len()
        &&& self.places@.len() == page_len(query, kept.len() as int)
        &&& exists|perm: Seq<usize>| #[trigger]
            sorts(
                sort_mode(query.sort),
                rows_at(rows, kept),
                perm,
            ) && forall|i: int|
                0 <= i < self.places@.len() ==> #[trigger] self.places@[i] == kept[perm[start
                    + i] as int]
    }
}

fn lowered_occurs(s: &str, q: &str) -> (r: bool)
    ensures
        r == contains_lowered(s@, q@),
{
    let low = text::ascii_lower(s);
    text::contains(low.as_str(), q)
}

fn found(f: &RowFacts, q: &str) -> (r: bool)
    ensures
        r == is_found(*f, q@),
{
    let q = text::ascii_lower(q);
    let id = text::decimal(f.chain_id);
    let short: bool = match &f.short_name {
        Some(s) => lowered_occurs(s.as_str(), q.as_str()),
        None => false,
    };
    text::contains(id.as_str(), q.as_str()) || lowered_occurs(f.name.as_str(), q.as_str()) || short
}

fn same_lowered(a: &str, b: &str) -> (r: bool)
    ensures
        r == (text::lowered(a@) == text::lowered(b@)),
{
    let a = text::ascii_lower(a);
    let b = text::ascii_lower(b);
    text::same(a.as_str(), b.as_str())
}

fn listed(f: &RowFacts, query: &ChainQuery, public: bool) -> (r: bool)
    ensures
        r == is_listed(*f, *query, public),
{
    if let Some(s) = &query.state {
        if !text::same(s.as_str(), "all") && !same_lowered(f.state.as_str(), s.as_str()) {
            return false;
        }
    }
    if let Some(t) = query.testnet {
        if f.is_testnet != t {
            return false;
        }
    }
    if let Some(q) = &query.q {
        if !found(f, q.as_str()) {
            return false;
        }
    }
    if !public {
        return true;
    }
    let whole: bool = text::is_some_text(&query.scope, "all");
    let searched: bool = match &query.q {
        Some(q) => !text::is_blank(q.as_str()),
        None => false,
    };
    whole || searched || text::same(f.state.as_str(), "available")
}

fn sorted_places(mode: SortMode, rows: &Vec<RowFacts>, kept: &Vec<usize>) -> (perm: Vec<usize>)
    requires
        forall|i: int| 0 <= i < kept@.len() ==> (#[trigger] kept@[i]) < rows@.len(),
    ensures
        sorts(mode, rows_at(rows@, kept@), perm@),
        perm@.len() == kept@.len(),
{
    let ghost chosen = rows_at(rows@, kept@);
    match mode {
        SortMode::Name => {
            let mut keys: Vec<String> = Vec::new();
            let mut i: usize = 0;
            while i < kept.len()
                invariant
                    i <= kept@.len(),
                    chosen == rows_at(rows@, kept@),
                    forall|i: int| 0 <= i < kept@.len() ==> (#[trigger] kept@[i]) < rows@.len(),
                    keys@.len() == i,
                    forall|k: int| 0 <= k < i ==> #[trigger] keys@[k] == chosen[k].name,
                decreases kept@.len() - i,
            {
                keys.push(rows[kept[i]].name.clone());
                i = i + 1;
            }
            assert(keys@ =~= chosen.map_values(|f: RowFacts| f.name));
            order::stable_order(&keys)
        },
        SortMode::Traffic => {
            let mut keys: Vec<Descending> = Vec::new();
            let mut i: usize = 0;
            while i < kept.len()
                invariant
                    i <= kept@.len(),
                    chosen == rows_at(rows@, kept@),
                    forall|i: int| 0 <= i < kept@.len() ==> (#[trigger] kept@[i]) < rows@.len(),
                    keys@.len() == i,
                    forall|k: int| 0 <= k < i ==> (#[trigger] keys@[k]).n == chosen[k].ingress_total,
                decreases kept@.len() - i,
            {
                keys.push(Descending { n: rows[kept[i]].ingress_total });
                i = i + 1;
            }
            assert(keys@ =~= chosen.map_values(|f: RowFacts| Descending { n: f.ingress_total }));
            order::stable_order(&keys)
        },
        SortMode::ChainId => {
            let mut keys: Vec<u64> = Vec::new();
            let mut i: usize = 0;
            while i < kept.len()
                invariant
                    i <= kept@.len(),
                    chosen == rows_at(rows@, kept@),
                    forall|i: int| 0 <= i < kept@.len() ==> (#[trigger] kept@[i]) < rows@.len(),
                    keys@.len() == i,
                    forall|k: int| 0 <= k < i ==> #[trigger] keys@[k] == chosen[k].chain_id,
                decreases kept@.len() - i,
            {
                keys.push(rows[kept[i]].chain_id);
                i = i + 1;
            }
            assert(keys@ =~= chosen.map_values(|f: RowFacts| f.chain_id));
            order::stable_order(&keys)
        },
        SortMode::Priority => {
            let mut keys: Vec<Priority> = Vec::new();
            let mut i: usize = 0;
            while i < kept.len()
                invariant
                    i <= kept@.len(),
                    chosen == rows_at(rows@, kept@),
                    forall|i: int| 0 <= i < kept@.len() ==> (#[trigger] kept@[i]) < rows@.len(),
                    keys@.len() == i,
                    forall|k: int| 0 <= k < i ==> #[trigger] keys@[k] == priority_of(chosen[k]),
                decreases kept@.len() - i,
            {
                keys.push(priority_key(&rows[kept[i]]));
                i = i + 1;
            }
            assert(keys@ =~= chosen.map_values(|f: RowFacts| priority_of(f)));
            order::stable_order(&keys)
        },
    }
}

/// Answers a query: which rows are listed, in which order, and which of them are on the page.
pub fn list_page(rows: &Vec<RowFacts>, query: &ChainQuery, public: bool) -> (page: Page)
    ensures
        page.is_for(rows@, *query, public),
{
    let mut kept: Vec<usize> = Vec::new();
    let mut i: usize = 0;
    assert(rows@.take(0) =~= Seq::<RowFacts>::empty());
    while i < rows.len()
        invariant
            i <= rows@.len(),
            kept@ == listed_places(rows@.take(i as int), *query, public),
            kept@.len() <= i,
            forall|k: int| 0 <= k < kept@.len() ==> (#[trigger] kept@[k]) < i,
        decreases rows@.len() - i,
    {
        assert(rows@.take(i + 1).drop_last() =~= rows@.take(i as int));
        if listed(&rows[i], query, public) {
            kept.push(i);
        }
        i = i + 1;
    }
    assert(rows@.take(rows@.len() as int) =~= rows@);
    let mode = mode_of(&query.sort);
    let perm = sorted_places(mode, rows, &kept);
    let total: usize = kept.len();
    let start: usize = match query.offset {
        Some(n) => if n < total {
            n
        } else {
            total
        },
        None => 0,
    };
    let size: usize = match query.limit {
        Some(n) => if n < LARGEST_PAGE {
            n
        } else {
            LARGEST_PAGE
        },
        None => DEFAULT_PAGE,
    };
    let mut places: Vec<usize> = Vec::new();
    let ghost chosen = rows_at(rows@, kept@);
    while places.len() < size && places.len() < total - start
        invariant
            start <= total,
            total == kept@.len(),
            perm@.len() == total,
            sorts(mode, chosen, perm@),
            chosen.len() == kept@.len(),
            places@.len() <= size,
            places@.len() <= total - start,
            forall|k: int|
                0 <= k < places@.len() ==> #[trigger] places@[k] == kept@[perm@[start + k] as int],
        decreases total - places@.len(),
    {
        let at: usize = perm[start + places.len()];
        places.push(kept[at]);
    }
    let page = Page { total, places };
    assert(sorts(sort_mode(query.sort), chosen, perm@));
    page
}

/// A page never holds more rows than allowed, nor more than there are.
pub proof fn lemma_page_is_bounded(page: Page, rows: Seq<RowFacts>, query: ChainQuery, public: bool)
    requires
        page.is_for(rows, query, public),
    ensures
        page.places@.len() <= LARGEST_PAGE,
        page.places@.len() <= page.total,
{
}

proof fn lemma_listed_places(rows: Seq<RowFacts>, query: ChainQuery, public: bool)
    requires
        rows.len() <= usize::MAX,
    ensures
        forall|p: usize| #[trigger]
            listed_places(rows, query, public).contains(p) <==> p < rows.len() && is_listed(
                rows[p as int],
                query,
                public,
            ),
    decreases rows.len(),
{
    if rows.len() > 0 {
        let short = rows.drop_last();
        lemma_listed_places(short, query, public);
        let before = listed_places(short, query, public);
        let last = (rows.len() - 1) as usize;
        assert forall|p: usize| #[trigger]
            listed_places(rows, query, public).contains(p) <==> p < rows.len() && is_listed(
            rows[p as int],
            query,
            public,
        ) by {
            crate::registry_model::lemma_push_contains(before, last, p);
            assert(before.contains(p) <==> p < short.len() && is_listed(
                short[p as int],
                query,
                public,
            ));
        }
    }
}

/// Every row on a page is one that the query asks for, and in the public list one that may be shown.
pub proof fn lemma_page_holds_what_was_asked_for(
    page: Page,
    rows: Seq<RowFacts>,
    query: ChainQuery,
    public: bool,
    i: int,
)
    requires
        rows.len() <= usize::MAX,
        page.is_for(rows, query, public),
        0 <= i < page.places@.len(),
    ensures
        page.places@[i] < rows.len(),
        is_listed(rows[page.places@[i] as int], query, public),
{
    let kept = listed_places(rows, query, public);
    let chosen = rows_at(rows, kept);
    let start = page_start(query, kept.len() as int);
    let perm = choose|perm: Seq<usize>| #[trigger]
        sorts(sort_mode(query.sort), chosen, perm) && forall|i: int|
            0 <= i < page.places@.len() ==> #[trigger] page.places@[i] == kept[perm[start
                + i] as int];
    lemma_listed_places(rows, query, public);
    assert(page.places@[i] == kept[perm[start + i] as int]);
    assert(perm[start + i] < chosen.len());
    assert(kept.contains(kept[perm[start + i] as int]));
}

/// A search text that is too long for the public list.
pub fn search_too_long(query: &ChainQuery) -> (r: bool)
    ensures
        r == (query.q matches Some(q) && q@.len() > 64),
{
    match &query.q {
        Some(q) => text::chars(q.as_str()).len() > 64,
        None => false,
    }
}

/// The order of states: chains that stay in memory, those that serve, those that sleep, those that are
/// off, and the rest.
pub open spec fn comes_as(state: Seq<char>) -> int {
    if state == "pinned"@ {
        0
    } else if state == "hot"@ {
        1
    } else if state == "dormant"@ {
        2
    } else if state == "disabled"@ {
        3
    } else {
        4
    }
}

/// Whether a row stands before another, by what the list is sorted by.
pub open spec fn stands_before(sort: Option<String>, a: RowFacts, b: RowFacts) -> bool {
    if sort matches Some(s) && s@ == "name"@ {
        order::text_less(a.name@, b.name@)
    } else if sort matches Some(s) && s@ == "traffic"@ {
        a.ingress_total > b.ingress_total
    } else if sort matches Some(s) && s@ == "chainId"@ {
        a.chain_id < b.chain_id
    } else if comes_as(a.state@) != comes_as(b.state@) {
        comes_as(a.state@) < comes_as(b.state@)
    } else if (a.active > 0) != (b.active > 0) {
        a.active > 0
    } else if (a.endpoints > 0) != (b.endpoints > 0) {
        a.endpoints > 0
    } else if a.is_testnet != b.is_testnet {
        !a.is_testnet
    } else if a.ingress_total != b.ingress_total {
        a.ingress_total > b.ingress_total
    } else {
        a.chain_id < b.chain_id
    }
}

/// The whole list that a query leads to, of which a page shows a part: every row that is listed, once, in
/// order, and rows that stand alike in the order they came in. It does not depend on the page.
pub open spec fn is_whole_list(
    rows: Seq<RowFacts>,
    query: ChainQuery,
    public: bool,
    whole: Seq<usize>,
) -> bool {
    &&& whole.no_duplicates()
    &&& forall|p: usize| #[trigger]
        whole.contains(p) <==> p < rows.len() && is_listed(rows[p as int], query, public)
    &&& forall|i: int, j: int|
        0 <= i < j < whole.len() ==> in_list_order(
            query.sort,
            rows,
            #[trigger] whole[i],
            #[trigger] whole[j],
        )
}

pub open spec fn in_list_order(sort: Option<String>, rows: Seq<RowFacts>, a: usize, b: usize) -> bool {
    stands_before(sort, rows[a as int], rows[b as int]) || (!stands_before(
        sort,
        rows[b as int],
        rows[a as int],
    ) && a < b)
}

/// There is one whole list only.
pub proof fn lemma_whole_list_is_unique(
    rows: Seq<RowFacts>,
    query: ChainQuery,
    public: bool,
    v: Seq<usize>,
    w: Seq<usize>,
)
    requires
        is_whole_list(rows, query, public, v),
        is_whole_list(rows, query, public, w),
    ensures
        v == w,
{
    v.unique_seq_to_set();
    w.unique_seq_to_set();
    assert(v.to_set() =~= w.to_set()) by {
        assert forall|p: usize| v.to_set().contains(p) == w.to_set().contains(p) by {
            assert(v.contains(p) <==> w.contains(p));
        }
    }
    lemma_same_from(rows, query, public, v, w, 0);
    assert(v =~= w);
}

proof fn lemma_never_both(sort: Option<String>, rows: Seq<RowFacts>, a: usize, b: usize)
    requires
        a != b,
    ensures
        !(in_list_order(sort, rows, a, b) && in_list_order(sort, rows, b, a)),
{
    order::lemma_text_order(rows[a as int].name@, rows[b as int].name@, rows[a as int].name@);
}

proof fn lemma_same_from(
    rows: Seq<RowFacts>,
    query: ChainQuery,
    public: bool,
    v: Seq<usize>,
    w: Seq<usize>,
    n: int,
)
    requires
        is_whole_list(rows, query, public, v),
        is_whole_list(rows, query, public, w),
        v.len() == w.len(),
        0 <= n <= v.len(),
        forall|i: int| 0 <= i < n ==> v[i] == w[i],
    ensures
        forall|i: int| 0 <= i < v.len() ==> v[i] == w[i],
    decreases v.len() - n,
{
    if n < v.len() {
        if v[n] != w[n] {
            assert(v.contains(v[n]));
            assert(w.contains(w[n]));
            assert(w.contains(v[n]));
            assert(v.contains(w[n]));
            let j = choose|j: int| 0 <= j < w.len() && w[j] == v[n];
            let k = choose|k: int| 0 <= k < v.len() && v[k] == w[n];
            assert(j > n) by {
                if j < n {
                    assert(v[j] == w[j]);
                }
            }
            assert(k > n) by {
                if k < n {
                    assert(v[k] == w[k]);
                }
            }
            assert(in_list_order(query.sort, rows, w[n], w[j]));
            assert(in_list_order(query.sort, rows, v[n], v[k]));
            lemma_never_both(query.sort, rows, v[n], w[n]);
        }
        lemma_same_from(rows, query, public, v, w, n + 1);
    }
}

proof fn lemma_listed_places_differ(rows: Seq<RowFacts>, query: ChainQuery, public: bool)
    requires
        rows.len() <= usize::MAX,
    ensures
        listed_places(rows, query, public).no_duplicates(),
        forall|a: int, b: int|
            0 <= a < b < listed_places(rows, query, public).len() ==> listed_places(
                rows,
                query,
                public,
            )[a] < listed_places(rows, query, public)[b],
    decreases rows.len(),
{
    if rows.len() > 0 {
        let short = rows.drop_last();
        lemma_listed_places_differ(short, query, public);
        lemma_listed_places(short, query, public);
        let before = listed_places(short, query, public);
        let all = listed_places(rows, query, public);
        assert forall|a: int, b: int| 0 <= a < b < all.len() implies all[a] < all[b] by {
            assert(before.contains(before[a]));
        }
    }
}

proof fn lemma_keys_agree(
    mode: SortMode,
    sort: Option<String>,
    chosen: Seq<RowFacts>,
    perm: Seq<usize>,
    i: int,
    j: int,
)
    requires
        mode == sort_mode(sort),
        sorts(mode, chosen, perm),
        0 <= i < j < perm.len(),
    ensures
        perm.len() == chosen.len(),
        perm.no_duplicates(),
        perm[i] < chosen.len(),
        perm[j] < chosen.len(),
        stands_before(sort, chosen[perm[i] as int], chosen[perm[j] as int]) || (!stands_before(
            sort,
            chosen[perm[j] as int],
            chosen[perm[i] as int],
        ) && perm[i] < perm[j]),
{
    reveal_strlit("name");
    reveal_strlit("traffic");
    reveal_strlit("chainId");
    assert("name"@.len() == 4 && "traffic"@.len() == 7 && "chainId"@.len() == 7);
    assert("traffic"@[0] == 't' && "chainId"@[0] == 'c');
    match mode {
        SortMode::Name => {
            let keys = chosen.map_values(|f: RowFacts| f.name);
            assert(order::in_order(keys, perm[i], perm[j]));
        },
        SortMode::Traffic => {
            let keys = chosen.map_values(|f: RowFacts| Descending { n: f.ingress_total });
            assert(order::in_order(keys, perm[i], perm[j]));
        },
        SortMode::ChainId => {
            let keys = chosen.map_values(|f: RowFacts| f.chain_id);
            assert(order::in_order(keys, perm[i], perm[j]));
        },
        SortMode::Priority => {
            let keys = chosen.map_values(|f: RowFacts| priority_of(f));
            assert(order::in_order(keys, perm[i], perm[j]));
        },
    }
}

/// A page is the part of the whole list that begins at the offset, and at the end of the list where the
/// offset is past it. It is as long as the limit says, a hundred rows without one and never more than two
/// hundred, or shorter where the list ends. The total is the length of the whole list.
pub proof fn lemma_page_is_part_of_the_list(
    page: Page,
    rows: Seq<RowFacts>,
    query: ChainQuery,
    public: bool,
) -> (whole: Seq<usize>)
    requires
        rows.len() <= usize::MAX,
        page.is_for(rows, query, public),
    ensures
        is_whole_list(rows, query, public, whole),
        page.total == whole.len(),
        ({
            let offset: int = match query.offset {
                Some(n) => n as int,
                None => 0,
            };
            let limit: int = match query.limit {
                Some(n) if n <= 200 => n as int,
                Some(_) => 200,
                None => 100,
            };
            &&& offset >= whole.len() ==> page.places@.len() == 0
            &&& offset < whole.len() && offset + limit <= whole.len() ==> page.places@
                == whole.subrange(offset, offset + limit)
            &&& offset < whole.len() && offset + limit > whole.len() ==> page.places@
                == whole.subrange(offset, whole.len() as int)
        }),
{
    let kept = listed_places(rows, query, public);
    let chosen = rows_at(rows, kept);
    let start = page_start(query, kept.len() as int);
    let perm = choose|perm: Seq<usize>| #[trigger]
        sorts(sort_mode(query.sort), chosen, perm) && forall|i: int|
            0 <= i < page.places@.len() ==> #[trigger] page.places@[i] == kept[perm[start
                + i] as int];
    let whole = perm.map_values(|p: usize| kept[p as int]);
    lemma_listed_places(rows, query, public);
    lemma_listed_places_differ(rows, query, public);
    assert(perm.len() == kept.len() && perm.no_duplicates() && forall|i: int|
        0 <= i < perm.len() ==> (#[trigger] perm[i]) < kept.len());
    order::lemma_reaches_all(perm);
    assert(whole.no_duplicates()) by {
        assert forall|a: int, b: int| 0 <= a < whole.len() && 0 <= b < whole.len() && a != b implies whole[a]
            != whole[b] by {
            assert(perm[a] != perm[b]);
            if perm[a] < perm[b] {
                assert(kept[perm[a] as int] < kept[perm[b] as int]);
            } else {
                assert(kept[perm[b] as int] < kept[perm[a] as int]);
            }
        }
    }
    assert forall|p: usize| #[trigger] whole.contains(p) <==> p < rows.len() && is_listed(
        rows[p as int],
        query,
        public,
    ) by {
        assert(kept.contains(p) <==> p < rows.len() && is_listed(rows[p as int], query, public));
        if whole.contains(p) {
            let i = choose|i: int| 0 <= i < whole.len() && whole[i] == p;
            assert(kept[perm[i] as int] == p);
            assert(kept.contains(p));
        }
        if kept.contains(p) {
            let k = choose|k: int| 0 <= k < kept.len() && kept[k] == p;
            assert(perm.contains(k as usize));
            let i = choose|i: int| 0 <= i < perm.len() && perm[i] == k as usize;
            assert(whole[i] == p);
        }
    }
    assert forall|i: int, j: int| 0 <= i < j < whole.len() implies in_list_order(
        query.sort,
        rows,
        #[trigger] whole[i],
        #[trigger] whole[j],
    ) by {
        lemma_keys_agree(sort_mode(query.sort), query.sort, chosen, perm, i, j);
        assert(chosen[perm[i] as int] == rows[whole[i] as int]);
        assert(chosen[perm[j] as int] == rows[whole[j] as int]);
        if perm[i] < perm[j] {
            assert(kept[perm[i] as int] < kept[perm[j] as int]);
        }
    }
    let offset: int = match query.offset {
        Some(n) => n as int,
        None => 0,
    };
    let limit: int = match query.limit {
        Some(n) if n <= 200 => n as int,
        Some(_) => 200,
        None => 100,
    };
    let end = if offset + limit <= whole.len() {
        offset + limit
    } else {
        whole.len() as int
    };
    if offset < whole.len() {
        let part = whole.subrange(offset, end);
        assert forall|i: int| 0 <= i < part.len() implies #[trigger] page.places@[i] == part[i] by {
            assert(page.places@[i] == kept[perm[start + i] as int]);
        }
        assert(page.places@ =~= part);
    }
    whole
}

/// Pages follow each other without a gap: the page that begins where one ends goes on with the next row of
/// the same list, and no row is on both.
pub proof fn lemma_pages_follow_each_other(
    first: Page,
    second: Page,
    rows: Seq<RowFacts>,
    query: ChainQuery,
    next: ChainQuery,
    public: bool,
)
    requires
        rows.len() <= usize::MAX,
        first.is_for(rows, query, public),
        second.is_for(rows, next, public),
        next.state == query.state,
        next.scope == query.scope,
        next.q == query.q,
        next.testnet == query.testnet,
        next.sort == query.sort,
        ({
            let offset: int = match query.offset {
                Some(n) => n as int,
                None => 0,
            };
            next.offset matches Some(n) && n == offset + first.places@.len()
        }),
    ensures
        second.total == first.total,
        (first.places@ + second.places@).no_duplicates(),
        forall|i: int, j: int|
            #![trigger first.places@[i], second.places@[j]]
            0 <= i < first.places@.len() && 0 <= j < second.places@.len() ==> in_list_order(
                query.sort,
                rows,
                first.places@[i],
                second.places@[j],
            ),
        (match query.offset {
            Some(n) => n as int,
            None => 0,
        }) == 0 && first.places@.len() + second.places@.len() == first.total ==> forall|p: usize|
            p < rows.len() && is_listed(rows[p as int], query, public) <==> #[trigger] (
            first.places@ + second.places@).contains(p),
{
    let v = lemma_page_is_part_of_the_list(first, rows, query, public);
    let w = lemma_page_is_part_of_the_list(second, rows, next, public);
    assert forall|p: usize| p < rows.len() implies is_listed(rows[p as int], next, public)
        == is_listed(rows[p as int], query, public) by {}
    assert(is_whole_list(rows, query, public, w)) by {
        assert forall|p: usize| #[trigger] w.contains(p) <==> p < rows.len() && is_listed(
            rows[p as int],
            query,
            public,
        ) by {}
    }
    lemma_whole_list_is_unique(rows, query, public, v, w);
    let offset: int = match query.offset {
        Some(n) => n as int,
        None => 0,
    };
    let a = first.places@;
    let b = second.places@;
    let at = offset + a.len();
    if offset < v.len() {
        assert(a =~= v.subrange(offset, at));
        assert(b.len() == 0 || b =~= v.subrange(at, at + b.len()));
        assert(a + b =~= v.subrange(offset, at + b.len()));
    } else {
        assert(a.len() == 0 && b.len() == 0);
        assert(a + b =~= Seq::<usize>::empty());
    }
    assert forall|i: int, j: int|
        #![trigger first.places@[i], second.places@[j]]
        0 <= i < first.places@.len() && 0 <= j < second.places@.len() implies in_list_order(
        query.sort,
        rows,
        first.places@[i],
        second.places@[j],
    ) by {
        assert(a[i] == v[offset + i]);
        assert(b[j] == v[at + j]);
        assert(in_list_order(query.sort, rows, v[offset + i], v[at + j]));
    }
    if offset == 0 && a.len() + b.len() == first.total {
        assert(a + b =~= v);
        assert forall|p: usize|
            p < rows.len() && is_listed(rows[p as int], query, public) <==> #[trigger] (a
                + b).contains(p) by {
            assert(v.contains(p) <==> p < rows.len() && is_listed(rows[p as int], query, public));
        }
    }
}

/// Which rows are listed: those in the state that is asked for, whatever its case, where it is not `all`;
/// test networks or main networks, where that is asked for; those whose id, name or short name holds the
/// search text, whatever its case; and of them, in the public list, all where something is searched for or
/// the whole catalog asked for, and else those that can be used.
pub proof fn lemma_rows_are_listed_by_all_filters(f: RowFacts, query: ChainQuery, public: bool)
    ensures
        query.state is None && query.q is None && query.testnet is None && !public ==> is_listed(
            f,
            query,
            public,
        ),
        is_listed(f, query, public) <==> {
            &&& query.state is None || query.state->0@ == "all"@ || text::lowered(f.state@)
                == text::lowered(query.state->0@)
            &&& query.testnet is None || query.testnet->0 == f.is_testnet
            &&& query.q is None || text::occurs(
                text::decimal_digits(f.chain_id as nat),
                text::lowered(query.q->0@),
            ) || text::occurs(text::lowered(f.name@), text::lowered(query.q->0@)) || (
            f.short_name is Some && text::occurs(
                text::lowered(f.short_name->0@),
                text::lowered(query.q->0@),
            ))
            &&& !public || f.state@ == "available"@ || (query.scope is Some && query.scope->0@
                == "all"@) || (query.q is Some && text::trimmed(query.q->0@).len() > 0)
        },
{
}

} // verus!
