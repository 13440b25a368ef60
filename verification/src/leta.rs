use vstd::prelude::*;

verus! {

/// A webpage recovered from an upstream search service's response.
#[derive(Debug)]
pub struct RetrievedWebpage {
    pub title: String,
    pub url: String,
    pub body: String,
    pub snippet: String,
}

pub ghost struct RetrievedWebpageView {
    pub title: Seq<char>,
    pub url: Seq<char>,
    pub body: Seq<char>,
    pub snippet: Seq<char>,
}

impl View for RetrievedWebpage {
    type V = RetrievedWebpageView;

    open spec fn view(&self) -> RetrievedWebpageView {
        RetrievedWebpageView {
            title: self.title@,
            url: self.url@,
            body: self.body@,
            snippet: self.snippet@,
        }
    }
}

/// The index fields an object node of the response may carry; each points
/// at another node of the same data array.
#[derive(Clone, Copy, PartialEq, Eq, Structural, Debug)]
pub struct EntryRefs {
    pub items: Option<u64>,
    pub title: Option<u64>,
    pub link: Option<u64>,
    pub snippet: Option<u64>,
}

/// One node of the response's data array, holding as plain values what
/// the result extraction reads: numbers, strings, arrays of numeric
/// pointers, and objects' index fields. Anything else is `Null`.
pub enum DataValue {
    Num(u64),
    Text(String),
    Nums(Vec<u64>),
    Entry(EntryRefs),
    Null,
}

pub ghost enum DataView {
    Num(u64),
    Text(Seq<char>),
    Nums(Seq<u64>),
    Entry(EntryRefs),
    Null,
}

impl View for DataValue {
    type V = DataView;

    open spec fn view(&self) -> DataView {
        match self {
            DataValue::Num(n) => DataView::Num(*n),
            DataValue::Text(s) => DataView::Text(s@),
            DataValue::Nums(ns) => DataView::Nums(ns@),
            DataValue::Entry(e) => DataView::Entry(*e),
            DataValue::Null => DataView::Null,
        }
    }
}

/// Why a response's nodes could not be turned into results.
#[derive(Clone, Copy, PartialEq, Eq, Structural, Debug)]
pub enum SearchParseError {
    ExpectedObject { index: u64 },
    MissingTitleIndex,
    MissingLinkIndex,
    MissingSnippetIndex,
    MissingTitleString,
    MissingUrlString,
    MissingSnippetString,
}

pub open spec fn data_views(s: Seq<DataValue>) -> Seq<DataView> {
    s.map_values(|v: DataValue| v@)
}

/// The node a pointer names; out-of-range pointers read as `Null`.
pub open spec fn value_at(data: Seq<DataView>, idx: u64) -> DataView {
    if idx < data.len() {
        data[idx as int]
    } else {
        DataView::Null
    }
}

/// The item pointers of a response: the first node names the pointer
/// list's position; a response not shaped that way has no items.
pub open spec fn spec_item_ptrs(data: Seq<DataView>) -> Seq<u64> {
    if data.len() == 0 {
        Seq::empty()
    } else {
        match data[0] {
            DataView::Entry(e) => match e.items {
                Some(p) => match value_at(data, p) {
                    DataView::Nums(ns) => ns,
                    _ => Seq::empty(),
                },
                None => Seq::empty(),
            },
            _ => Seq::empty(),
        }
    }
}

/// One item: the node must be an object whose title, link and snippet
/// fields point at string nodes.
pub open spec fn spec_parse_item(data: Seq<DataView>, idx: u64) -> Result<
    RetrievedWebpageView,
    SearchParseError,
> {
    match value_at(data, idx) {
        DataView::Entry(e) => match (e.title, e.link, e.snippet) {
            (None, _, _) => Err(SearchParseError::MissingTitleIndex),
            (Some(_), None, _) => Err(SearchParseError::MissingLinkIndex),
            (Some(_), Some(_), None) => Err(SearchParseError::MissingSnippetIndex),
            (Some(ti), Some(li), Some(si)) => match value_at(data, ti) {
                DataView::Text(title) => match value_at(data, li) {
                    DataView::Text(url) => match value_at(data, si) {
                        DataView::Text(snippet) => Ok(
                            RetrievedWebpageView { title, url, body: snippet, snippet },
                        ),
                        _ => Err(SearchParseError::MissingSnippetString),
                    },
                    _ => Err(SearchParseError::MissingUrlString),
                },
                _ => Err(SearchParseError::MissingTitleString),
            },
        },
        _ => Err(SearchParseError::ExpectedObject { index: idx }),
    }
}

/// The items named by the pointers, in order; the first bad item aborts
/// the extraction.
pub open spec fn spec_parse_items(data: Seq<DataView>, ptrs: Seq<u64>) -> Result<
    Seq<RetrievedWebpageView>,
    SearchParseError,
>
    decreases ptrs.len(),
{
    if ptrs.len() == 0 {
        Ok(Seq::empty())
    } else {
        match spec_parse_item(data, ptrs[0]) {
            Err(e) => Err(e),
            Ok(w) => match spec_parse_items(data, ptrs.skip(1)) {
                Err(e) => Err(e),
                Ok(rest) => Ok(seq![w] + rest),
            },
        }
    }
}

/// What a whole response yields.
pub open spec fn spec_search_results(data: Seq<DataView>) -> Result<
    Seq<RetrievedWebpageView>,
    SearchParseError,
> {
    spec_parse_items(data, spec_item_ptrs(data))
}

/// The string node a pointer names, if it names one.
fn text_at<'a>(data: &'a Vec<DataValue>, idx: u64) -> (r: Option<&'a String>)
    ensures
        match r {
            Some(s) => value_at(data_views(data@), idx) == DataView::Text(s@),
            None => !(value_at(data_views(data@), idx) is Text),
        },
{
    if idx < data.len() as u64 {
        match &data[idx as usize] {
            DataValue::Text(s) => Some(s),
            _ => None,
        }
    } else {
        None
    }
}

/// The object node a pointer names, if it names one.
fn entry_at(data: &Vec<DataValue>, idx: u64) -> (r: Option<EntryRefs>)
    ensures
        match r {
            Some(e) => value_at(data_views(data@), idx) == DataView::Entry(e),
            None => !(value_at(data_views(data@), idx) is Entry),
        },
{
    if idx < data.len() as u64 {
        match &data[idx as usize] {
            DataValue::Entry(e) => Some(*e),
            _ => None,
        }
    } else {
        None
    }
}

/// Extracts one result item.
fn parse_item(data: &Vec<DataValue>, idx: u64) -> (r: Result<RetrievedWebpage, SearchParseError>)
    ensures
        match r {
            Ok(w) => spec_parse_item(data_views(data@), idx) == Ok::<_, SearchParseError>(w@),
            Err(e) => spec_parse_item(data_views(data@), idx) == Err::<RetrievedWebpageView, _>(e),
        },
{
    let entry = match entry_at(data, idx) {
        Some(e) => e,
        None => {
            return Err(SearchParseError::ExpectedObject { index: idx });
        },
    };
    let ti = match entry.title {
        Some(ti) => ti,
        None => {
            return Err(SearchParseError::MissingTitleIndex);
        },
    };
    let li = match entry.link {
        Some(li) => li,
        None => {
            return Err(SearchParseError::MissingLinkIndex);
        },
    };
    let si = match entry.snippet {
        Some(si) => si,
        None => {
            return Err(SearchParseError::MissingSnippetIndex);
        },
    };
    let title = match text_at(data, ti) {
        Some(s) => s.clone(),
        None => {
            return Err(SearchParseError::MissingTitleString);
        },
    };
    let url = match text_at(data, li) {
        Some(s) => s.clone(),
        None => {
            return Err(SearchParseError::MissingUrlString);
        },
    };
    let snippet = match text_at(data, si) {
        Some(s) => s.clone(),
        None => {
            return Err(SearchParseError::MissingSnippetString);
        },
    };
    let body = snippet.clone();
    Ok(RetrievedWebpage { title, url, body, snippet })
}

/// Extracts the result pages from a search response's data nodes: follows
/// the pointer list the first node names and reads each item's title,
/// url and snippet strings. A response without a pointer list yields no
/// results; a malformed item yields the first error met, as
/// `spec_search_results` states.
pub fn parse_search_results(data: &Vec<DataValue>) -> (r: Result<
    Vec<RetrievedWebpage>,
    SearchParseError,
>)
    ensures
        match r {
            Ok(v) => spec_search_results(data_views(data@)) == Ok::<_, SearchParseError>(
                v@.map_values(|w: RetrievedWebpage| w@),
            ),
            Err(e) => spec_search_results(data_views(data@)) == Err::<
                Seq<RetrievedWebpageView>,
                _,
            >(e),
        },
{
    let ghost dv = data_views(data@);
    let mut results: Vec<RetrievedWebpage> = Vec::new();
    if data.len() == 0 {
        assert(spec_item_ptrs(dv).len() == 0);
        assert(results@.map_values(|w: RetrievedWebpage| w@) =~= Seq::<
            RetrievedWebpageView,
        >::empty());
        return Ok(results);
    }
    let ptrs: &Vec<u64> = match &data[0] {
        DataValue::Entry(e) => match e.items {
            Some(p) => {
                if p < data.len() as u64 {
                    match &data[p as usize] {
                        DataValue::Nums(ns) => ns,
                        _ => {
                            assert(spec_item_ptrs(dv).len() == 0);
                            assert(results@.map_values(|w: RetrievedWebpage| w@) =~= Seq::<
                                RetrievedWebpageView,
                            >::empty());
                            return Ok(results);
                        },
                    }
                } else {
                    assert(spec_item_ptrs(dv).len() == 0);
                    assert(results@.map_values(|w: RetrievedWebpage| w@) =~= Seq::<
                        RetrievedWebpageView,
                    >::empty());
                    return Ok(results);
                }
            },
            None => {
                assert(spec_item_ptrs(dv).len() == 0);
                assert(results@.map_values(|w: RetrievedWebpage| w@) =~= Seq::<
                    RetrievedWebpageView,
                >::empty());
                return Ok(results);
            },
        },
        _ => {
            assert(spec_item_ptrs(dv).len() == 0);
            assert(results@.map_values(|w: RetrievedWebpage| w@) =~= Seq::<
                RetrievedWebpageView,
            >::empty());
            return Ok(results);
        },
    };
    assert(spec_item_ptrs(dv) == ptrs@);
    let mut i: usize = 0;
    proof {
        assert(ptrs@.skip(0) =~= ptrs@);
        match spec_parse_items(dv, ptrs@) {
            Err(_) => {},
            Ok(rest) => {
                assert(Seq::<RetrievedWebpageView>::empty() + rest =~= rest);
                assert(results@.map_values(|w: RetrievedWebpage| w@) =~= Seq::<
                    RetrievedWebpageView,
                >::empty());
            },
        }
    }
    while i < ptrs.len()
        invariant
            i <= ptrs@.len(),
            dv == data_views(data@),
            spec_search_results(dv) == spec_parse_items(dv, ptrs@),
            spec_parse_items(dv, ptrs@) == (match spec_parse_items(dv, ptrs@.skip(i as int)) {
                Err(e) => Err::<Seq<RetrievedWebpageView>, SearchParseError>(e),
                Ok(rest) => Ok(results@.map_values(|w: RetrievedWebpage| w@) + rest),
            }),
        decreases ptrs@.len() - i,
    {
        proof {
            assert(ptrs@.skip(i as int)[0] == ptrs@[i as int]);
            assert(ptrs@.skip(i as int).skip(1) =~= ptrs@.skip(i + 1));
        }
        match parse_item(data, ptrs[i]) {
            Err(e) => {
                return Err(e);
            },
            Ok(w) => {
                proof {
                    assert(results@.push(w).map_values(|x: RetrievedWebpage| x@)
                        =~= results@.map_values(|x: RetrievedWebpage| x@).push(w@));
                    match spec_parse_items(dv, ptrs@.skip(i + 1)) {
                        Err(_) => {},
                        Ok(rest) => {
                            assert(results@.map_values(|x: RetrievedWebpage| x@) + (seq![w@]
                                + rest) =~= results@.map_values(|x: RetrievedWebpage| x@).push(w@)
                                + rest);
                        },
                    }
                }
                results.push(w);
                i = i + 1;
            },
        }
    }
    proof {
        assert(ptrs@.skip(i as int).len() == 0);
        match spec_parse_items(dv, ptrs@) {
            Err(_) => {},
            Ok(rest) => {
                assert(results@.map_values(|w: RetrievedWebpage| w@) + Seq::<
                    RetrievedWebpageView,
                >::empty() =~= results@.map_values(|w: RetrievedWebpage| w@));
            },
        }
    }
    Ok(results)
}

} // verus!
