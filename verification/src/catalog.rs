//! The catalog: channels grouped into named categories.
//!
//! A catalog lists its categories in the order in which they first appeared,
//! and each category lists its channels in the order in which they were added.
//! No two categories of a catalog share a name.

use vstd::prelude::*;
use vstd::std_specs::vec::vec_index_mut;

verus! {

/// Address of the thumbnail shown where a channel names none.
pub const PLACEHOLDER_ICON: &'static str = "/static/placeholder.png";

/// The mathematical value of a [`Channel`].
pub struct ChannelView {
    pub name: Seq<char>,
    pub url: Seq<char>,
    pub icon_url: Seq<char>,
}

/// The mathematical value of a [`Category`].
pub struct CategoryView {
    pub name: Seq<char>,
    pub channels: Seq<ChannelView>,
}

/// The thumbnail address in effect: the given one, or the placeholder where none is given.
pub open spec fn icon_or_placeholder(icon_url: Seq<char>) -> Seq<char> {
    if icon_url.len() == 0 {
        PLACEHOLDER_ICON@
    } else {
        icon_url
    }
}

/// One playable stream: display name, stream address and thumbnail address.
#[derive(Debug, PartialEq, Eq)]
pub struct Channel {
    name: String,
    url: String,
    icon_url: String,
}

impl View for Channel {
    type V = ChannelView;

    closed spec fn view(&self) -> ChannelView {
        ChannelView { name: self.name@, url: self.url@, icon_url: self.icon_url@ }
    }
}

impl Channel {
    #[verifier::type_invariant]
    spec fn has_icon(&self) -> bool {
        self.icon_url@.len() > 0
    }

    /// Makes a channel. An empty thumbnail address is replaced by the placeholder.
    pub fn new(name: String, url: String, icon_url: String) -> (channel: Channel)
        ensures
            channel@ == (ChannelView {
                name: name@,
                url: url@,
                icon_url: icon_or_placeholder(icon_url@),
            }),
    {
        proof {
            reveal_strlit("/static/placeholder.png");
        }
        let icon_url = if icon_url.as_str().is_empty() {
            PLACEHOLDER_ICON.to_owned()
        } else {
            icon_url
        };
        Channel { name, url, icon_url }
    }

    /// The display name.
    pub fn name(&self) -> (name: &str)
        ensures
            name@ == self@.name,
    {
        self.name.as_str()
    }

    /// The stream address.
    pub fn url(&self) -> (url: &str)
        ensures
            url@ == self@.url,
    {
        self.url.as_str()
    }

    /// The thumbnail address, which is never empty.
    pub fn icon_url(&self) -> (icon_url: &str)
        ensures
            icon_url@ == self@.icon_url,
            icon_url@.len() > 0,
    {
        proof {
            use_type_invariant(self);
        }
        self.icon_url.as_str()
    }
}

impl Clone for Channel {
    fn clone(&self) -> (copy: Channel)
        ensures
            copy@ == self@,
    {
        proof {
            use_type_invariant(self);
        }
        Channel { name: self.name.clone(), url: self.url.clone(), icon_url: self.icon_url.clone() }
    }
}

/// The values of a list of channels.
pub open spec fn channel_views(channels: Seq<Channel>) -> Seq<ChannelView> {
    channels.map_values(|c: Channel| c@)
}

/// A named group of channels.
#[derive(Debug, PartialEq, Eq)]
pub struct Category {
    name: String,
    channels: Vec<Channel>,
}

impl View for Category {
    type V = CategoryView;

    closed spec fn view(&self) -> CategoryView {
        CategoryView { name: self.name@, channels: channel_views(self.channels@) }
    }
}

impl Category {
    /// Makes a category of the given name and channels.
    pub fn new(name: String, channels: Vec<Channel>) -> (category: Category)
        ensures
            category@ == (CategoryView { name: name@, channels: channel_views(channels@) }),
    {
        Category { name, channels }
    }

    /// The name of the category.
    pub fn name(&self) -> (name: &str)
        ensures
            name@ == self@.name,
    {
        self.name.as_str()
    }

    /// The channels of the category, in the order in which they were added.
    pub fn channels(&self) -> (channels: &Vec<Channel>)
        ensures
            channel_views(channels@) == self@.channels,
    {
        &self.channels
    }

    /// The number of channels in the category.
    pub fn len(&self) -> (n: usize)
        ensures
            n == self@.channels.len(),
    {
        self.channels.len()
    }
}

/// The values of a list of categories.
pub open spec fn category_views(categories: Seq<Category>) -> Seq<CategoryView> {
    categories.map_values(|c: Category| c@)
}

/// Whether no two categories of `catalog` share a name.
pub open spec fn names_unique(catalog: Seq<CategoryView>) -> bool {
    forall|i: int, j: int|
        0 <= i < j < catalog.len() ==> (#[trigger] catalog[i]).name != (#[trigger] catalog[j]).name
}

/// Whether `catalog` has a category named `name`.
pub open spec fn has_category(catalog: Seq<CategoryView>, name: Seq<char>) -> bool {
    exists|i: int| 0 <= i < catalog.len() && (#[trigger] catalog[i]).name == name
}

/// The position of the category named `name`, where `catalog` has one.
pub open spec fn position_of(catalog: Seq<CategoryView>, name: Seq<char>) -> int {
    choose|i: int| 0 <= i < catalog.len() && (#[trigger] catalog[i]).name == name
}

/// `catalog` after `channel` is added under `name`: appended to the category
/// of that name, or placed in a new last category where there is none.
pub open spec fn with_channel(
    catalog: Seq<CategoryView>,
    name: Seq<char>,
    channel: ChannelView,
) -> Seq<CategoryView> {
    if has_category(catalog, name) {
        let at = position_of(catalog, name);
        catalog.update(at, CategoryView { name: name, channels: catalog[at].channels.push(channel) })
    } else {
        catalog.push(CategoryView { name: name, channels: seq![channel] })
    }
}

/// `catalog` after a category `name` is declared: unchanged where it has
/// one, else with a new last category without channels.
pub open spec fn with_category(catalog: Seq<CategoryView>, name: Seq<char>) -> Seq<CategoryView> {
    if has_category(catalog, name) {
        catalog
    } else {
        catalog.push(CategoryView { name: name, channels: Seq::empty() })
    }
}

/// The number of channels in all categories together.
pub open spec fn total_channels(catalog: Seq<CategoryView>) -> nat
    decreases catalog.len(),
{
    if catalog.len() == 0 {
        0
    } else {
        total_channels(catalog.drop_last()) + catalog.last().channels.len()
    }
}

/// Adding a channel keeps the names unique.
pub proof fn lemma_with_channel_keeps_names(
    catalog: Seq<CategoryView>,
    name: Seq<char>,
    channel: ChannelView,
)
    requires
        names_unique(catalog),
    ensures
        names_unique(with_channel(catalog, name, channel)),
        has_category(with_channel(catalog, name, channel), name),
        total_channels(with_channel(catalog, name, channel)) == total_channels(catalog) + 1,
{
    let after = with_channel(catalog, name, channel);
    if has_category(catalog, name) {
        let at = position_of(catalog, name);
        assert(after[at].name == name);
        assert forall|i: int, j: int| 0 <= i < j < after.len() implies
            (#[trigger] after[i]).name != (#[trigger] after[j]).name by {
            assert(after[i].name == catalog[i].name);
            assert(after[j].name == catalog[j].name);
        }
        lemma_total_after_update(catalog, at, after[at]);
    } else {
        assert(after[after.len() - 1].name == name);
        assert forall|i: int, j: int| 0 <= i < j < after.len() implies
            (#[trigger] after[i]).name != (#[trigger] after[j]).name by {
            if j < catalog.len() {
                assert(after[i].name == catalog[i].name);
                assert(after[j].name == catalog[j].name);
            } else {
                assert(after[i] == catalog[i]);
            }
        }
        assert(after.drop_last() =~= catalog);
    }
}

proof fn lemma_total_after_update(catalog: Seq<CategoryView>, at: int, entry: CategoryView)
    requires
        0 <= at < catalog.len(),
    ensures
        total_channels(catalog.update(at, entry)) == total_channels(catalog)
            - catalog[at].channels.len() + entry.channels.len(),
    decreases catalog.len(),
{
    let after = catalog.update(at, entry);
    if at == catalog.len() - 1 {
        assert(after.drop_last() =~= catalog.drop_last());
    } else {
        assert(after.drop_last() =~= catalog.drop_last().update(at, entry));
        lemma_total_after_update(catalog.drop_last(), at, entry);
    }
}

/// The read-only index of a playlist: its categories by name.
#[derive(Debug, PartialEq, Eq)]
pub struct CatalogIndex {
    categories: Vec<Category>,
}

impl View for CatalogIndex {
    type V = Seq<CategoryView>;

    closed spec fn view(&self) -> Seq<CategoryView> {
        category_views(self.categories@)
    }
}

impl CatalogIndex {
    #[verifier::type_invariant]
    spec fn distinct_names(&self) -> bool {
        names_unique(category_views(self.categories@))
    }

    /// The catalog without categories.
    pub fn new() -> (catalog: CatalogIndex)
        ensures
            catalog@ == Seq::<CategoryView>::empty(),
    {
        let catalog = CatalogIndex { categories: Vec::new() };
        assert(catalog@ =~= Seq::<CategoryView>::empty());
        catalog
    }

    /// The categories in the order in which they first appeared. No two share a name.
    pub fn categories(&self) -> (categories: &Vec<Category>)
        ensures
            category_views(categories@) == self@,
            names_unique(self@),
    {
        proof {
            use_type_invariant(self);
        }
        &self.categories
    }

    /// The number of categories.
    pub fn len(&self) -> (n: usize)
        ensures
            n == self@.len(),
    {
        self.categories.len()
    }

    fn find(&self, name: &str) -> (found: Option<usize>)
        ensures
            names_unique(self@),
            match found {
                Some(at) => has_category(self@, name@) && at == position_of(self@, name@) && at < self@.len()
                    && self@[at as int].name == name@,
                None => !has_category(self@, name@),
            },
    {
        proof {
            use_type_invariant(self);
        }
        let wanted: String = name.to_owned();
        let mut at: usize = 0;
        while at < self.categories.len()
            invariant
                at <= self.categories.len(),
                wanted@ == name@,
                names_unique(self@),
                forall|i: int| 0 <= i < at ==> (#[trigger] self@[i]).name != name@,
            decreases self.categories.len() - at,
        {
            if self.categories[at].name == wanted {
                assert(self@[at as int].name == name@);
                return Some(at);
            }
            at += 1;
        }
        None
    }

    /// Looks a category up by its exact name.
    pub fn lookup(&self, name: &str) -> (found: Option<&Category>)
        ensures
            match found {
                Some(category) => has_category(self@, name@) && category@ == self@[position_of(
                    self@,
                    name@,
                )] && category@.name == name@,
                None => !has_category(self@, name@),
            },
    {
        match self.find(name) {
            Some(at) => Some(&self.categories[at]),
            None => None,
        }
    }

    /// Adds `channel` under the category `name`, which is created where the
    /// catalog has none of that name.
    pub fn insert(&mut self, name: &str, channel: Channel)
        ensures
            final(self)@ == with_channel(old(self)@, name@, channel@),
            names_unique(final(self)@),
    {
        let ghost before = self@;
        let found = self.find(name);
        proof {
            lemma_with_channel_keeps_names(before, name@, channel@);
        }
        let mut categories: Vec<Category> = Vec::new();
        std::mem::swap(&mut categories, &mut self.categories);
        assert(category_views(categories@) == before);
        match found {
            Some(at) => {
                let ghost earlier = categories@[at as int];
                let category = vec_index_mut(&mut categories, at);
                category.channels.push(channel);
                proof {
                    let later = categories@[at as int];
                    assert(later.name == earlier.name);
                    assert(later.channels@ == earlier.channels@.push(channel));
                    assert(channel_views(later.channels@) =~= channel_views(earlier.channels@).push(
                        channel@,
                    ));
                    assert(earlier@ == before[at as int]);
                    assert(category_views(categories@) =~= with_channel(before, name@, channel@));
                }
            },
            None => {
                let mut channels: Vec<Channel> = Vec::new();
                channels.push(channel);
                let category = Category { name: name.to_owned(), channels };
                assert(category@.channels =~= seq![channel@]);
                categories.push(category);
                assert(category_views(categories@) =~= with_channel(before, name@, channel@));
            },
        }
        self.categories = categories;
    }

    /// Declares the category `name`: where the catalog has none of that
    /// name, one without channels is created.
    pub fn declare(&mut self, name: &str)
        ensures
            final(self)@ == with_category(old(self)@, name@),
            names_unique(final(self)@),
    {
        let ghost before = self@;
        let found = self.find(name);
        if found.is_none() {
            let mut categories: Vec<Category> = Vec::new();
            std::mem::swap(&mut categories, &mut self.categories);
            let category = Category { name: name.to_owned(), channels: Vec::new() };
            assert(category@.channels =~= Seq::<ChannelView>::empty());
            categories.push(category);
            let ghost after = category_views(categories@);
            assert(after =~= with_category(before, name@));
            assert forall|i: int, j: int| 0 <= i < j < after.len() implies
                (#[trigger] after[i]).name != (#[trigger] after[j]).name by {
                if j < before.len() {
                    assert(after[i] == before[i] && after[j] == before[j]);
                } else {
                    assert(after[i] == before[i]);
                }
            }
            self.categories = categories;
        }
    }
}

} // verus!
