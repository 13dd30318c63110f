//! Queries on a catalog: the sorted category listing and the channel search.

use vstd::prelude::*;
use crate::catalog::{
    CatalogIndex, CategoryView, Channel, ChannelView, category_views, channel_views,
};
use crate::sorting::{
    SortKey, SortKeyView, arranged, entry_items, entry_keys, is_sorted_by_key, is_stable_order,
    lemma_sorted_by_key_unique, lemma_stable_order_is_onto, sort_by_key,
};
use crate::text::{chars_of, contains_text, lowercase_of, occurs_in, to_lowercase};

verus! {

/// One line of the category listing: a name and the number of its channels.
#[derive(Debug, PartialEq, Eq)]
pub struct CategorySummary {
    pub name: String,
    pub channel_count: usize,
}

/// The mathematical value of a [`CategorySummary`].
pub struct SummaryView {
    pub name: Seq<char>,
    pub channel_count: nat,
}

impl View for CategorySummary {
    type V = SummaryView;

    open spec fn view(&self) -> SummaryView {
        SummaryView { name: self.name@, channel_count: self.channel_count as nat }
    }
}

/// The name under which a category is shown: its own, or "No Category" where that is empty.
pub open spec fn shown_name(name: Seq<char>) -> Seq<char> {
    if name.len() == 0 {
        "No Category"@
    } else {
        name
    }
}

impl CategorySummary {
    /// The name under which the category is shown.
    pub fn display_name(&self) -> (shown: &str)
        ensures
            shown@ == shown_name(self@.name),
    {
        if self.name.as_str().is_empty() {
            "No Category"
        } else {
            self.name.as_str()
        }
    }
}

/// One search result: a channel and the name of its category.
#[derive(Debug, PartialEq, Eq)]
pub struct SearchHit {
    pub category: String,
    pub channel: Channel,
}

/// The mathematical value of a [`SearchHit`].
pub struct HitView {
    pub category: Seq<char>,
    pub channel: ChannelView,
}

impl View for SearchHit {
    type V = HitView;

    open spec fn view(&self) -> HitView {
        HitView { category: self.category@, channel: self.channel@ }
    }
}

/// The values of a list of summaries.
pub open spec fn summary_views(summaries: Seq<CategorySummary>) -> Seq<SummaryView> {
    summaries.map_values(|s: CategorySummary| s@)
}

/// The values of a list of search results.
pub open spec fn hit_views(hits: Seq<SearchHit>) -> Seq<HitView> {
    hits.map_values(|h: SearchHit| h@)
}

/// The categories of `catalog` that have at least one channel, in catalog order.
pub open spec fn listed_categories(catalog: Seq<CategoryView>) -> Seq<CategoryView>
    decreases catalog.len(),
{
    if catalog.len() == 0 {
        Seq::empty()
    } else if catalog.last().channels.len() > 0 {
        listed_categories(catalog.drop_last()).push(catalog.last())
    } else {
        listed_categories(catalog.drop_last())
    }
}

/// The listing line of a category.
pub open spec fn summary_of(category: CategoryView) -> SummaryView {
    SummaryView { name: category.name, channel_count: category.channels.len() }
}

/// The key by which a category is listed: its name in lower case.
pub open spec fn listing_key(category: CategoryView) -> SortKeyView {
    SortKeyView { primary: lowercase_of(category.name), secondary: Seq::empty() }
}

/// The listing keys of a list of categories.
pub open spec fn listing_keys(categories: Seq<CategoryView>) -> Seq<SortKeyView> {
    categories.map_values(|c: CategoryView| listing_key(c))
}

/// The listing lines of a list of categories.
pub open spec fn summaries_of(categories: Seq<CategoryView>) -> Seq<SummaryView> {
    categories.map_values(|c: CategoryView| summary_of(c))
}

/// Whether `out` is the listing of `catalog`: one line for each category
/// with channels, ascending by lower-case name, categories whose lower-case
/// names agree in catalog order.
pub open spec fn is_listing(out: Seq<SummaryView>, catalog: Seq<CategoryView>) -> bool {
    let listed = listed_categories(catalog);
    is_sorted_by_key(out, summaries_of(listed), listing_keys(listed))
}

/// Whether a channel named `name` matches the lower-case search text `needle`.
pub open spec fn name_matches(name: Seq<char>, needle: Seq<char>) -> bool {
    occurs_in(lowercase_of(name), needle)
}

/// The channels of one category that match `needle`, in category order.
pub open spec fn matching_in_category(
    category: Seq<char>,
    channels: Seq<ChannelView>,
    needle: Seq<char>,
) -> Seq<HitView>
    decreases channels.len(),
{
    if channels.len() == 0 {
        Seq::empty()
    } else if name_matches(channels.last().name, needle) {
        matching_in_category(category, channels.drop_last(), needle).push(
            HitView { category: category, channel: channels.last() },
        )
    } else {
        matching_in_category(category, channels.drop_last(), needle)
    }
}

/// The channels of `catalog` that match `needle`: category by category in
/// catalog order, within a category in the order of its channels.
pub open spec fn matching_hits(catalog: Seq<CategoryView>, needle: Seq<char>) -> Seq<HitView>
    decreases catalog.len(),
{
    if catalog.len() == 0 {
        Seq::empty()
    } else {
        matching_hits(catalog.drop_last(), needle) + matching_in_category(
            catalog.last().name,
            catalog.last().channels,
            needle,
        )
    }
}

/// The key by which a search result is ranked: channel name, then category name.
pub open spec fn hit_key(hit: HitView) -> SortKeyView {
    SortKeyView { primary: hit.channel.name, secondary: hit.category }
}

/// The ranking keys of a list of search results.
pub open spec fn hit_keys(hits: Seq<HitView>) -> Seq<SortKeyView> {
    hits.map_values(|h: HitView| hit_key(h))
}

/// Whether `out` ranks `hits`: the same results, ascending by channel name,
/// then by category name, results that agree in both in the order of `hits`.
pub open spec fn is_ranking(out: Seq<HitView>, hits: Seq<HitView>) -> bool {
    is_sorted_by_key(out, hits, hit_keys(hits))
}

/// A catalog has one listing and no other.
pub proof fn lemma_listing_unique(
    first: Seq<SummaryView>,
    second: Seq<SummaryView>,
    catalog: Seq<CategoryView>,
)
    requires
        is_listing(first, catalog),
        is_listing(second, catalog),
    ensures
        first == second,
{
    let listed = listed_categories(catalog);
    lemma_sorted_by_key_unique(first, second, summaries_of(listed), listing_keys(listed));
}

/// Search results have one ranking and no other.
pub proof fn lemma_ranking_unique(first: Seq<HitView>, second: Seq<HitView>, hits: Seq<HitView>)
    requires
        is_ranking(first, hits),
        is_ranking(second, hits),
    ensures
        first == second,
{
    lemma_sorted_by_key_unique(first, second, hits, hit_keys(hits));
}

/// The search result for channel `j` of category `i`.
pub open spec fn hit_of(catalog: Seq<CategoryView>, i: int, j: int) -> HitView {
    HitView { category: catalog[i].name, channel: catalog[i].channels[j] }
}

/// Whether `hit` is a channel of `catalog`, with the name of its category,
/// whose name in lower case holds `needle`.
pub open spec fn is_match(catalog: Seq<CategoryView>, needle: Seq<char>, hit: HitView) -> bool {
    exists|i: int, j: int|
        0 <= i < catalog.len() && 0 <= j < catalog[i].channels.len() && hit == #[trigger] hit_of(
            catalog,
            i,
            j,
        ) && name_matches(hit.channel.name, needle)
}

proof fn lemma_matching_in_category(
    category: Seq<char>,
    channels: Seq<ChannelView>,
    needle: Seq<char>,
    hit: HitView,
)
    ensures
        matching_in_category(category, channels, needle).contains(hit) <==> exists|j: int|
            0 <= j < channels.len() && hit == (HitView {
                category: category,
                channel: #[trigger] channels[j],
            }) && name_matches(hit.channel.name, needle),
    decreases channels.len(),
{
    if channels.len() > 0 {
        let shorter = channels.drop_last();
        let last = channels.last();
        let found = matching_in_category(category, channels, needle);
        let before = matching_in_category(category, shorter, needle);
        lemma_matching_in_category(category, shorter, needle, hit);
        if found.contains(hit) {
            let k = choose|k: int| 0 <= k < found.len() && found[k] == hit;
            if name_matches(last.name, needle) && k == found.len() - 1 {
                assert(hit == (HitView { category: category, channel: channels[channels.len() - 1] }));
            } else {
                assert(before[k] == hit);
                assert(before.contains(hit));
                let j = choose|j: int|
                    0 <= j < shorter.len() && hit == (HitView {
                        category: category,
                        channel: #[trigger] shorter[j],
                    }) && name_matches(hit.channel.name, needle);
                assert(hit == (HitView { category: category, channel: channels[j] }));
            }
        }
        if exists|j: int|
            0 <= j < channels.len() && hit == (HitView {
                category: category,
                channel: #[trigger] channels[j],
            }) && name_matches(hit.channel.name, needle) {
            let j = choose|j: int|
                0 <= j < channels.len() && hit == (HitView {
                    category: category,
                    channel: #[trigger] channels[j],
                }) && name_matches(hit.channel.name, needle);
            if j == channels.len() - 1 {
                assert(found[found.len() - 1] == hit);
            } else {
                assert(hit == (HitView { category: category, channel: shorter[j] }));
                assert(before.contains(hit));
                let k = choose|k: int| 0 <= k < before.len() && before[k] == hit;
                assert(found[k] == hit);
            }
        }
    }
}

/// The channels that match are those that `matching_hits` lists.
pub proof fn lemma_matching_hits_are_matches(
    catalog: Seq<CategoryView>,
    needle: Seq<char>,
    hit: HitView,
)
    ensures
        matching_hits(catalog, needle).contains(hit) <==> is_match(catalog, needle, hit),
    decreases catalog.len(),
{
    if catalog.len() > 0 {
        let shorter = catalog.drop_last();
        let last = catalog.last();
        let n = catalog.len() - 1;
        let before = matching_hits(shorter, needle);
        let here = matching_in_category(last.name, last.channels, needle);
        let found = matching_hits(catalog, needle);
        lemma_matching_hits_are_matches(shorter, needle, hit);
        lemma_matching_in_category(last.name, last.channels, needle, hit);
        if found.contains(hit) {
            let k = choose|k: int| 0 <= k < found.len() && found[k] == hit;
            if k < before.len() {
                assert(before[k] == hit);
                assert(before.contains(hit));
                let (i, j) = choose|i: int, j: int|
                    0 <= i < shorter.len() && 0 <= j < shorter[i].channels.len() && hit
                        == #[trigger] hit_of(shorter, i, j) && name_matches(hit.channel.name, needle);
                assert(hit == hit_of(catalog, i, j));
            } else {
                assert(here[k - before.len()] == hit);
                assert(here.contains(hit));
                let j = choose|j: int|
                    0 <= j < last.channels.len() && hit == (HitView {
                        category: last.name,
                        channel: #[trigger] last.channels[j],
                    }) && name_matches(hit.channel.name, needle);
                assert(hit == hit_of(catalog, n, j));
            }
        }
        if is_match(catalog, needle, hit) {
            let (i, j) = choose|i: int, j: int|
                0 <= i < catalog.len() && 0 <= j < catalog[i].channels.len() && hit
                    == #[trigger] hit_of(catalog, i, j) && name_matches(hit.channel.name, needle);
            if i < n {
                assert(hit == hit_of(shorter, i, j));
                assert(before.contains(hit));
                let k = choose|k: int| 0 <= k < before.len() && before[k] == hit;
                assert(found[k] == hit);
            } else {
                assert(hit == (HitView { category: last.name, channel: last.channels[j] }));
                assert(here.contains(hit));
                let k = choose|k: int| 0 <= k < here.len() && here[k] == hit;
                assert(found[before.len() + k] == hit);
            }
        }
    }
}

/// A ranking holds the results that it ranks and no others.
pub proof fn lemma_ranking_keeps_members(out: Seq<HitView>, hits: Seq<HitView>, hit: HitView)
    requires
        is_ranking(out, hits),
    ensures
        out.contains(hit) <==> hits.contains(hit),
        out.len() == hits.len(),
{
    let order = choose|order: Seq<usize>| #[trigger]
        is_stable_order(order, hit_keys(hits)) && arranged(out, hits, order);
    if out.contains(hit) {
        let k = choose|k: int| 0 <= k < out.len() && out[k] == hit;
        assert(hits[order[k] as int] == hit);
    }
    if hits.contains(hit) {
        let p = choose|p: int| 0 <= p < hits.len() && hits[p] == hit;
        lemma_stable_order_is_onto(order, hit_keys(hits), p);
        let k = choose|k: int| 0 <= k < order.len() && #[trigger] order[k] == p;
        assert(out[k] == hit);
    }
}

/// A search gives exactly the channels whose name in lower case holds the
/// search text in lower case.
pub proof fn lemma_search_finds_matches(
    out: Seq<HitView>,
    catalog: Seq<CategoryView>,
    term: Seq<char>,
    hit: HitView,
)
    requires
        is_ranking(out, matching_hits(catalog, lowercase_of(term))),
    ensures
        out.contains(hit) <==> is_match(catalog, lowercase_of(term), hit),
{
    lemma_ranking_keeps_members(out, matching_hits(catalog, lowercase_of(term)), hit);
    lemma_matching_hits_are_matches(catalog, lowercase_of(term), hit);
}

/// A channel offered to the search: its name in lower case, the name of
/// its category, and the channel.
#[derive(Debug)]
pub struct Candidate<'a> {
    pub folded_name: String,
    pub category: &'a str,
    pub channel: &'a Channel,
}

/// The mathematical value of a [`Candidate`].
pub struct CandidateView {
    pub folded_name: Seq<char>,
    pub hit: HitView,
}

impl<'a> View for Candidate<'a> {
    type V = CandidateView;

    open spec fn view(&self) -> CandidateView {
        CandidateView {
            folded_name: self.folded_name@,
            hit: HitView { category: self.category@, channel: self.channel@ },
        }
    }
}

/// The values of a list of candidates.
pub open spec fn candidate_views<'a>(candidates: Seq<Candidate<'a>>) -> Seq<CandidateView> {
    candidates.map_values(|c: Candidate<'a>| c@)
}

/// The candidates whose lower-case name holds `needle`, as search results, in the order given.
pub open spec fn selected_hits(candidates: Seq<CandidateView>, needle: Seq<char>) -> Seq<HitView>
    decreases candidates.len(),
{
    if candidates.len() == 0 {
        Seq::empty()
    } else if occurs_in(candidates.last().folded_name, needle) {
        selected_hits(candidates.drop_last(), needle).push(candidates.last().hit)
    } else {
        selected_hits(candidates.drop_last(), needle)
    }
}

/// Picks the candidates whose lower-case name holds `needle` and ranks them:
/// ascending by channel name, then by category name, candidates that agree
/// in both in the order given.
pub fn rank_candidates(candidates: &Vec<Candidate>, needle: &str) -> (hits: Vec<SearchHit>)
    ensures
        is_ranking(hit_views(hits@), selected_hits(candidate_views(candidates@), needle@)),
{
    let wanted = chars_of(needle);
    let ghost offered = candidate_views(candidates@);
    let mut entries: Vec<(SortKey, SearchHit)> = Vec::new();
    let mut i: usize = 0;
    assert(offered.take(0) =~= Seq::<CandidateView>::empty());
    while i < candidates.len()
        invariant
            i <= candidates.len(),
            offered == candidate_views(candidates@),
            wanted@ == needle@,
            entries.len() == selected_hits(offered.take(i as int), needle@).len(),
            forall|k: int|
                0 <= k < entries.len() ==> (#[trigger] entries[k]).0@ == hit_key(
                    selected_hits(offered.take(i as int), needle@)[k],
                ) && entries[k].1@ == selected_hits(offered.take(i as int), needle@)[k],
        decreases candidates.len() - i,
    {
        let candidate = &candidates[i];
        assert(candidate@ == offered[i as int]);
        assert(offered.take(i + 1).drop_last() =~= offered.take(i as int));
        assert(offered.take(i + 1).last() == offered[i as int]);
        let folded = chars_of(candidate.folded_name.as_str());
        if contains_text(&folded, &wanted) {
            let key = SortKey {
                primary: chars_of(candidate.channel.name()),
                secondary: chars_of(candidate.category),
            };
            let hit = SearchHit {
                category: candidate.category.to_owned(),
                channel: candidate.channel.clone(),
            };
            entries.push((key, hit));
        }
        i += 1;
    }
    assert(offered.take(i as int) =~= offered);
    let ghost found = selected_hits(offered, needle@);
    let ghost given = entries@;
    let hits = sort_by_key(entries);
    proof {
        assert(entry_keys(given) =~= hit_keys(found));
        let order = choose|order: Seq<usize>| #[trigger]
            is_stable_order(order, entry_keys(given)) && arranged(hits@, entry_items(given), order);
        assert(arranged(hit_views(hits@), found, order));
    }
    hits
}

/// A category offered to the listing: its name in lower case and its listing line.
#[derive(Debug, PartialEq, Eq)]
pub struct ListingEntry {
    pub folded_name: String,
    pub summary: CategorySummary,
}

/// The mathematical value of a [`ListingEntry`].
pub struct ListingEntryView {
    pub folded_name: Seq<char>,
    pub summary: SummaryView,
}

impl View for ListingEntry {
    type V = ListingEntryView;

    open spec fn view(&self) -> ListingEntryView {
        ListingEntryView { folded_name: self.folded_name@, summary: self.summary@ }
    }
}

/// The values of a list of listing entries.
pub open spec fn listing_entry_views(entries: Seq<ListingEntry>) -> Seq<ListingEntryView> {
    entries.map_values(|e: ListingEntry| e@)
}

/// The entries that count at least one channel, in the order given.
pub open spec fn shown_entries(entries: Seq<ListingEntryView>) -> Seq<ListingEntryView>
    decreases entries.len(),
{
    if entries.len() == 0 {
        Seq::empty()
    } else if entries.last().summary.channel_count > 0 {
        shown_entries(entries.drop_last()).push(entries.last())
    } else {
        shown_entries(entries.drop_last())
    }
}

/// The key by which an entry is listed: the lower-case name it comes with.
pub open spec fn entry_key(entry: ListingEntryView) -> SortKeyView {
    SortKeyView { primary: entry.folded_name, secondary: Seq::empty() }
}

/// The listing lines of a list of entries.
pub open spec fn entry_summaries(entries: Seq<ListingEntryView>) -> Seq<SummaryView> {
    entries.map_values(|e: ListingEntryView| e.summary)
}

/// The listing keys of a list of entries.
pub open spec fn entry_listing_keys(entries: Seq<ListingEntryView>) -> Seq<SortKeyView> {
    entries.map_values(|e: ListingEntryView| entry_key(e))
}

/// Whether `out` lists `entries`: the lines of the entries that count at
/// least one channel, ascending by the lower-case name each comes with,
/// entries whose lower-case names agree in the order given.
pub open spec fn is_ranked_listing(out: Seq<SummaryView>, entries: Seq<ListingEntryView>) -> bool {
    let shown = shown_entries(entries);
    is_sorted_by_key(out, entry_summaries(shown), entry_listing_keys(shown))
}

/// Leaves out the entries without channels and ranks the others by the
/// lower-case name each comes with.
pub fn rank_listing(entries: Vec<ListingEntry>) -> (listing: Vec<CategorySummary>)
    ensures
        is_ranked_listing(summary_views(listing@), listing_entry_views(entries@)),
{
    let ghost offered = listing_entry_views(entries@);
    let ghost all = entries@;
    let mut kept: Vec<(SortKey, CategorySummary)> = Vec::new();
    assert(offered.take(0) =~= Seq::<ListingEntryView>::empty());
    for entry in it: entries
        invariant
            it.seq() == all,
            offered == listing_entry_views(all),
            kept.len() == shown_entries(offered.take(it.index())).len(),
            forall|k: int|
                0 <= k < kept.len() ==> (#[trigger] kept[k]).0@ == entry_key(
                    shown_entries(offered.take(it.index()))[k],
                ) && kept[k].1@ == shown_entries(offered.take(it.index()))[k].summary,
    {
        assert(entry@ == offered[it.index()]);
        assert(offered.take(it.index() + 1).drop_last() =~= offered.take(it.index()));
        assert(offered.take(it.index() + 1).last() == offered[it.index()]);
        if entry.summary.channel_count > 0 {
            let key = SortKey {
                primary: chars_of(entry.folded_name.as_str()),
                secondary: Vec::new(),
            };
            assert(key@.secondary =~= Seq::<char>::empty());
            kept.push((key, entry.summary));
        }
    }
    assert(offered.take(offered.len() as int) =~= offered);
    let ghost shown = shown_entries(offered);
    let ghost given = kept@;
    let listing = sort_by_key(kept);
    proof {
        assert(entry_keys(given) =~= entry_listing_keys(shown));
        let order = choose|order: Seq<usize>| #[trigger]
            is_stable_order(order, entry_keys(given)) && arranged(
                listing@,
                entry_items(given),
                order,
            );
        assert(arranged(summary_views(listing@), entry_summaries(shown), order));
    }
    listing
}

/// The listing entry of a category: its name in lower case and its listing line.
pub open spec fn listing_entry_of(category: CategoryView) -> ListingEntryView {
    ListingEntryView { folded_name: lowercase_of(category.name), summary: summary_of(category) }
}

/// The listing entries of a list of categories.
pub open spec fn listing_entries_of(categories: Seq<CategoryView>) -> Seq<ListingEntryView> {
    categories.map_values(|c: CategoryView| listing_entry_of(c))
}

/// The entries of a catalog that count a channel are those of its
/// categories that have one.
pub proof fn lemma_shown_entries_are_listed(catalog: Seq<CategoryView>)
    ensures
        shown_entries(listing_entries_of(catalog)) == listing_entries_of(
            listed_categories(catalog),
        ),
    decreases catalog.len(),
{
    let entries = listing_entries_of(catalog);
    if catalog.len() == 0 {
        assert(shown_entries(entries) =~= listing_entries_of(listed_categories(catalog)));
    } else {
        lemma_shown_entries_are_listed(catalog.drop_last());
        assert(entries.drop_last() =~= listing_entries_of(catalog.drop_last()));
        assert(entries.last() == listing_entry_of(catalog.last()));
        assert(shown_entries(entries) =~= listing_entries_of(listed_categories(catalog)));
    }
}

impl CatalogIndex {
    /// Lists the categories that have channels, each with its channel
    /// count, ascending by lower-case name.
    pub fn list_categories(&self) -> (listing: Vec<CategorySummary>)
        ensures
            is_listing(summary_views(listing@), self@),
    {
        let categories = self.categories();
        let ghost catalog = self@;
        let mut entries: Vec<ListingEntry> = Vec::new();
        let mut i: usize = 0;
        while i < categories.len()
            invariant
                i <= categories.len(),
                category_views(categories@) == catalog,
                entries.len() == i,
                forall|k: int|
                    0 <= k < i ==> (#[trigger] entries[k])@ == listing_entry_of(catalog[k]),
            decreases categories.len() - i,
        {
            let category = &categories[i];
            assert(category@ == catalog[i as int]);
            let summary = CategorySummary {
                name: category.name().to_owned(),
                channel_count: category.len(),
            };
            entries.push(ListingEntry { folded_name: to_lowercase(category.name()), summary });
            i += 1;
        }
        assert(listing_entry_views(entries@) =~= listing_entries_of(catalog));
        let listing = rank_listing(entries);
        proof {
            lemma_shown_entries_are_listed(catalog);
            let listed = listed_categories(catalog);
            let shown = listing_entries_of(listed);
            assert(entry_summaries(shown) =~= summaries_of(listed));
            assert(entry_listing_keys(shown) =~= listing_keys(listed));
        }
        listing
    }

    /// Finds the channels whose name holds `term`, without regard to case,
    /// ascending by channel name and then by category name.
    pub fn search(&self, term: &str) -> (hits: Vec<SearchHit>)
        ensures
            is_ranking(hit_views(hits@), matching_hits(self@, lowercase_of(term@))),
            forall|hit: HitView| #[trigger]
                hit_views(hits@).contains(hit) <==> is_match(self@, lowercase_of(term@), hit),
    {
        let categories = self.categories();
        let ghost catalog = self@;
        let folded_term = to_lowercase(term);
        let ghost needle = lowercase_of(term@);
        let mut candidates: Vec<Candidate> = Vec::new();
        let mut ci: usize = 0;
        assert(catalog.take(0) =~= Seq::<CategoryView>::empty());
        while ci < categories.len()
            invariant
                ci <= categories.len(),
                category_views(categories@) == catalog,
                selected_hits(candidate_views(candidates@), needle) == matching_hits(
                    catalog.take(ci as int),
                    needle,
                ),
            decreases categories.len() - ci,
        {
            let category = &categories[ci];
            let channels = category.channels();
            let ghost before = matching_hits(catalog.take(ci as int), needle);
            let ghost shown = catalog[ci as int];
            assert(category@ == shown);
            assert(shown.channels.take(0) =~= Seq::<ChannelView>::empty());
            let mut hi: usize = 0;
            while hi < channels.len()
                invariant
                    hi <= channels.len(),
                    category@ == shown,
                    channel_views(channels@) == shown.channels,
                    selected_hits(candidate_views(candidates@), needle) == before
                        + matching_in_category(shown.name, shown.channels.take(hi as int), needle),
                decreases channels.len() - hi,
            {
                let channel = &channels[hi];
                assert(channel@ == shown.channels[hi as int]);
                assert(shown.channels.take(hi + 1).drop_last() =~= shown.channels.take(hi as int));
                assert(shown.channels.take(hi + 1).last() == shown.channels[hi as int]);
                let ghost offered = candidate_views(candidates@);
                let candidate = Candidate {
                    folded_name: to_lowercase(channel.name()),
                    category: category.name(),
                    channel: channel,
                };
                let ghost added = candidate@;
                candidates.push(candidate);
                proof {
                    let now = candidate_views(candidates@);
                    assert(now.drop_last() =~= offered);
                    assert(now.last() == added);
                    let inner = matching_in_category(
                        shown.name,
                        shown.channels.take(hi as int),
                        needle,
                    );
                    assert(before + inner.push(added.hit) =~= (before + inner).push(added.hit));
                }
                hi += 1;
            }
            assert(shown.channels.take(hi as int) =~= shown.channels);
            assert(catalog.take(ci + 1).drop_last() =~= catalog.take(ci as int));
            assert(catalog.take(ci + 1).last() == shown);
            ci += 1;
        }
        assert(catalog.take(ci as int) =~= catalog);
        let hits = rank_candidates(&candidates, folded_term.as_str());
        proof {
            assert forall|hit: HitView| #[trigger]
                hit_views(hits@).contains(hit) <==> is_match(catalog, needle, hit) by {
                lemma_search_finds_matches(hit_views(hits@), catalog, term@, hit);
            }
        }
        hits
    }
}

} // verus!
