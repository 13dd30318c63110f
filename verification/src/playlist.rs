//! The playlist parser: from the lines of an extended M3U playlist to a catalog.
//!
//! A directive line announces a channel; the next stream line gives it its
//! address and adds it to the catalog. Every other line is passed over.

use vstd::prelude::*;
use vstd::slice::slice_subrange;
use crate::catalog::{
    CatalogIndex, CategoryView, Channel, ChannelView, icon_or_placeholder, lemma_with_channel_keeps_names,
    names_unique, total_channels, with_channel,
};
use crate::text::{
    chars_of, find_char, find_first, first_occurrence, has_prefix, lines_of, occurs_at, occurs_in,
    split_lines, starts_with, string_of, strip_prefixes, trim, trimmed, without_prefixes,
};

verus! {

/// The mathematical value of a [`Pending`] channel.
pub struct PendingView {
    pub category: Seq<char>,
    pub name: Seq<char>,
    pub icon_url: Seq<char>,
}

/// What a directive line says of the channel it announces; the stream address is still to come.
#[derive(Debug, PartialEq, Eq)]
pub struct Pending {
    pub category: String,
    pub name: String,
    pub icon_url: String,
}

impl View for Pending {
    type V = PendingView;

    open spec fn view(&self) -> PendingView {
        PendingView { category: self.category@, name: self.name@, icon_url: self.icon_url@ }
    }
}

/// The value of an optional pending channel.
pub open spec fn pending_view(pending: Option<Pending>) -> Option<PendingView> {
    match pending {
        Some(p) => Some(p@),
        None => None,
    }
}

/// Whether `line` is a directive line.
pub open spec fn is_directive_line(line: Seq<char>) -> bool {
    has_prefix(line, "#EXTINF"@)
}

/// Whether `line` is a stream line: no directive, and it begins like an address.
pub open spec fn is_stream_line(line: Seq<char>) -> bool {
    !is_directive_line(line) && has_prefix(line, "http"@)
}

/// Whether `line` is passed over: neither a directive nor a stream line.
pub open spec fn is_ignored_line(line: Seq<char>) -> bool {
    !is_directive_line(line) && !is_stream_line(line)
}

/// The part of a directive line before its first comma: the whole line where it has none.
pub open spec fn head_of(line: Seq<char>) -> Seq<char> {
    match first_occurrence(line, seq![',']) {
        Some(at) => line.take(at),
        None => line,
    }
}

/// What follows the first comma of a directive line.
pub open spec fn tail_of(line: Seq<char>) -> Option<Seq<char>> {
    match first_occurrence(line, seq![',']) {
        Some(at) => Some(line.skip(at + 1)),
        None => None,
    }
}

/// The text from position `from` of `head` up to the next double quote.
pub open spec fn quoted_after(head: Seq<char>, from: int) -> Option<Seq<char>> {
    let rest = head.skip(from);
    match first_occurrence(rest, seq!['"']) {
        Some(end) => Some(rest.take(end)),
        None => None,
    }
}

/// The quoted value behind the leftmost `opener` in `head`. There is none
/// where `opener` does not occur, or where no double quote closes the value.
pub open spec fn attribute_of(head: Seq<char>, opener: Seq<char>) -> Option<Seq<char>> {
    match first_occurrence(head, opener) {
        Some(at) => quoted_after(head, at + opener.len()),
        None => None,
    }
}

/// The group that `head` names. `group-title` is looked for first; `group`
/// is looked at only where `group-title` does not occur at all.
pub open spec fn group_of(head: Seq<char>) -> Option<Seq<char>> {
    if occurs_in(head, "group-title=\""@) {
        attribute_of(head, "group-title=\""@)
    } else {
        attribute_of(head, "group=\""@)
    }
}

/// The category of a directive that names no group.
pub open spec fn default_category(head: Seq<char>) -> Seq<char> {
    if occurs_in(head, "group-title=\"\""@) || occurs_in(head, "group=\"\""@) {
        "No Category"@
    } else {
        "Uncategorized"@
    }
}

/// The category of a directive with the given head.
pub open spec fn category_of(head: Seq<char>) -> Seq<char> {
    match group_of(head) {
        Some(group) => if group.len() == 0 {
            "No Category"@
        } else {
            group
        },
        None => default_category(head),
    }
}

/// The thumbnail address that `head` names, empty where it names none.
pub open spec fn logo_of(head: Seq<char>) -> Seq<char> {
    match attribute_of(head, "tvg-logo=\""@) {
        Some(logo) => logo,
        None => Seq::empty(),
    }
}

/// The display name cleaned of leading attribute fragments and of what
/// follows a double quote.
pub open spec fn clean_name(raw: Seq<char>) -> Seq<char> {
    let first = trim(strip_prefixes(raw, "tvg-id=\"\""@));
    let second = trim(strip_prefixes(first, "tvg-name=\""@));
    match first_occurrence(second, seq!['"']) {
        Some(at) => trim(second.take(at)),
        None => second,
    }
}

/// What a directive line announces. Where the line names a group, the
/// display name is what follows the first comma, and a line without a comma
/// announces nothing. Where it names no group, the display name is taken
/// from the head, after the marker.
pub open spec fn directive_of(line: Seq<char>) -> Option<PendingView> {
    let head = head_of(line);
    match group_of(head) {
        Some(_) => match tail_of(line) {
            Some(tail) => Some(
                PendingView {
                    category: category_of(head),
                    name: clean_name(trim(tail)),
                    icon_url: logo_of(head),
                },
            ),
            None => None,
        },
        None => Some(
            PendingView {
                category: category_of(head),
                name: clean_name(trim(strip_prefixes(head, "#EXTINF:-1"@))),
                icon_url: logo_of(head),
            },
        ),
    }
}

/// The channel that a pending directive and its stream line make.
pub open spec fn channel_of(pending: PendingView, url: Seq<char>) -> ChannelView {
    ChannelView {
        name: pending.name,
        url: url,
        icon_url: icon_or_placeholder(pending.icon_url),
    }
}

/// The parser's state after `line`: a directive line sets it, a stream line
/// clears it, any other line leaves it.
pub open spec fn next_state(state: Option<PendingView>, line: Seq<char>) -> Option<PendingView> {
    if is_directive_line(line) {
        directive_of(line)
    } else if is_stream_line(line) {
        None
    } else {
        state
    }
}

/// The catalog after `line`: a stream line adds the pending channel, if there is one.
pub open spec fn catalog_after_line(
    catalog: Seq<CategoryView>,
    state: Option<PendingView>,
    line: Seq<char>,
) -> Seq<CategoryView> {
    match state {
        Some(pending) => if is_stream_line(line) {
            with_channel(catalog, pending.category, channel_of(pending, line))
        } else {
            catalog
        },
        None => catalog,
    }
}

/// The parser's state after all of `lines`.
pub open spec fn state_after(lines: Seq<Seq<char>>) -> Option<PendingView>
    decreases lines.len(),
{
    if lines.len() == 0 {
        None
    } else {
        next_state(state_after(lines.drop_last()), lines.last())
    }
}

/// The catalog that `lines` describe.
pub open spec fn catalog_of(lines: Seq<Seq<char>>) -> Seq<CategoryView>
    decreases lines.len(),
{
    if lines.len() == 0 {
        Seq::empty()
    } else {
        catalog_after_line(
            catalog_of(lines.drop_last()),
            state_after(lines.drop_last()),
            lines.last(),
        )
    }
}

fn quoted_value<'a>(head: &'a [char], from: usize) -> (value: Option<&'a [char]>)
    requires
        from <= head@.len(),
    ensures
        match value {
            Some(v) => quoted_after(head@, from as int) == Some(v@),
            None => quoted_after(head@, from as int).is_none(),
        },
{
    let rest = slice_subrange(head, from, head.len());
    match find_char(rest, '"') {
        Some(end) => Some(slice_subrange(rest, 0, end)),
        None => None,
    }
}

fn attribute_value<'a>(head: &'a [char], opener: &str) -> (value: Option<&'a [char]>)
    ensures
        match value {
            Some(v) => attribute_of(head@, opener@) == Some(v@),
            None => attribute_of(head@, opener@).is_none(),
        },
{
    let pattern = chars_of(opener);
    let n: usize = head.len();
    match find_first(head, &pattern) {
        Some(at) => {
            assert(at + pattern@.len() <= n);
            quoted_value(head, at + pattern.len())
        },
        None => None,
    }
}

fn group_value<'a>(head: &'a [char]) -> (value: Option<&'a [char]>)
    ensures
        match value {
            Some(v) => group_of(head@) == Some(v@),
            None => group_of(head@).is_none(),
        },
{
    let title = chars_of("group-title=\"");
    let n: usize = head.len();
    match find_first(head, &title) {
        Some(at) => {
            assert(at + title@.len() <= n);
            quoted_value(head, at + title.len())
        },
        None => attribute_value(head, "group=\""),
    }
}

fn cleaned<'a>(raw: &'a [char]) -> (out: &'a [char])
    ensures
        out@ == clean_name(raw@),
{
    let id_fragment = chars_of("tvg-id=\"\"");
    let name_fragment = chars_of("tvg-name=\"");
    let first = trimmed(without_prefixes(raw, &id_fragment));
    let second = trimmed(without_prefixes(first, &name_fragment));
    match find_char(second, '"') {
        Some(at) => trimmed(slice_subrange(second, 0, at)),
        None => second,
    }
}

/// Cleans a raw display name: leading `tvg-id=""` and `tvg-name="`
/// fragments are cut off, and where a double quote follows, the name ends
/// before it.
pub fn clean_channel_name(name: &str) -> (cleaned_name: String)
    ensures
        cleaned_name@ == clean_name(name@),
{
    let raw = chars_of(name);
    string_of(cleaned(&raw))
}

fn category_text(head: &[char], group: Option<&[char]>) -> (category: String)
    requires
        match group {
            Some(v) => group_of(head@) == Some(v@),
            None => group_of(head@).is_none(),
        },
    ensures
        category@ == category_of(head@),
{
    match group {
        Some(v) => if v.len() == 0 {
            "No Category".to_owned()
        } else {
            string_of(v)
        },
        None => {
            let empty_title = chars_of("group-title=\"\"");
            let empty_group = chars_of("group=\"\"");
            if find_first(head, &empty_title).is_some() || find_first(head, &empty_group).is_some() {
                "No Category".to_owned()
            } else {
                "Uncategorized".to_owned()
            }
        },
    }
}

fn directive_chars(line: &[char]) -> (pending: Option<Pending>)
    ensures
        pending_view(pending) == directive_of(line@),
{
    let comma = find_char(line, ',');
    let n: usize = line.len();
    let head = match comma {
        Some(at) => slice_subrange(line, 0, at),
        None => slice_subrange(line, 0, line.len()),
    };
    assert(head@ == head_of(line@)) by {
        assert(line@.subrange(0, line@.len() as int) =~= line@);
    }
    let group = group_value(head);
    let raw: &[char] = match group {
        Some(_) => match comma {
            Some(at) => trimmed(slice_subrange(line, at + 1, n)),
            None => {
                return None;
            },
        },
        None => {
            let marker = chars_of("#EXTINF:-1");
            trimmed(without_prefixes(head, &marker))
        },
    };
    let name = string_of(cleaned(raw));
    let category = category_text(head, group);
    let icon_url = match attribute_value(head, "tvg-logo=\"") {
        Some(logo) => string_of(logo),
        None => String::new(),
    };
    Some(Pending { category, name, icon_url })
}

/// Reads a directive line. Gives what the line announces, or `None` where
/// the line names a group and has no comma.
pub fn parse_directive(line: &str) -> (pending: Option<Pending>)
    ensures
        pending_view(pending) == directive_of(line@),
{
    let chars = chars_of(line);
    directive_chars(&chars)
}

/// The two states of the parser.
#[derive(Clone, Copy, Debug, PartialEq, Eq)]
pub enum ParserState {
    /// No channel waits for its stream address.
    Idle,
    /// A directive has announced a channel that waits for its stream address.
    AwaitingUrl,
}

/// A parser that is fed a playlist line by line.
#[derive(Debug)]
pub struct PlaylistParser {
    pending: Option<Pending>,
    catalog: CatalogIndex,
}

impl PlaylistParser {
    /// The channel that waits for its stream address, if one does.
    pub closed spec fn pending(&self) -> Option<PendingView> {
        pending_view(self.pending)
    }

    /// The catalog built so far.
    pub closed spec fn catalog(&self) -> Seq<CategoryView> {
        self.catalog@
    }

    /// A parser that has read nothing.
    pub fn new() -> (parser: PlaylistParser)
        ensures
            parser.pending().is_none(),
            parser.catalog() == Seq::<CategoryView>::empty(),
    {
        PlaylistParser { pending: None, catalog: CatalogIndex::new() }
    }

    /// The state of the parser.
    pub fn state(&self) -> (state: ParserState)
        ensures
            state == if self.pending().is_some() {
                ParserState::AwaitingUrl
            } else {
                ParserState::Idle
            },
    {
        if self.pending.is_some() {
            ParserState::AwaitingUrl
        } else {
            ParserState::Idle
        }
    }

    fn feed_chars(&mut self, line: &[char])
        ensures
            final(self).pending() == next_state(old(self).pending(), line@),
            final(self).catalog() == catalog_after_line(
                old(self).catalog(),
                old(self).pending(),
                line@,
            ),
    {
        let marker = chars_of("#EXTINF");
        let scheme = chars_of("http");
        if starts_with(line, &marker) {
            self.pending = directive_chars(line);
        } else if starts_with(line, &scheme) {
            match self.pending.take() {
                Some(p) => {
                    let channel = Channel::new(p.name, string_of(line), p.icon_url);
                    self.catalog.insert(p.category.as_str(), channel);
                },
                None => {},
            }
        }
    }

    /// Reads one line of the playlist.
    pub fn feed(&mut self, line: &str)
        ensures
            final(self).pending() == next_state(old(self).pending(), line@),
            final(self).catalog() == catalog_after_line(
                old(self).catalog(),
                old(self).pending(),
                line@,
            ),
    {
        let chars = chars_of(line);
        self.feed_chars(&chars);
    }

    /// Ends the parse and gives the catalog. A channel that still waits for
    /// its address is dropped.
    pub fn finish(self) -> (catalog: CatalogIndex)
        ensures
            catalog@ == self.catalog(),
    {
        self.catalog
    }
}

/// Parses the text of a playlist into a catalog. The catalog has one channel
/// for each stream line that follows a directive which announces a channel,
/// with nothing but lines that are passed over in between.
pub fn parse_playlist(text: &str) -> (catalog: CatalogIndex)
    ensures
        catalog@ == catalog_of(lines_of(text@)),
        total_channels(catalog@) == completing_lines(lines_of(text@)).len(),
        icons_present(catalog@),
{
    let chars = chars_of(text);
    let lines = split_lines(&chars);
    let ghost all = lines_of(text@);
    let mut parser = PlaylistParser::new();
    let mut i: usize = 0;
    assert(all.take(0) =~= Seq::<Seq<char>>::empty());
    while i < lines.len()
        invariant
            i <= lines.len(),
            lines@.len() == all.len(),
            forall|k: int| 0 <= k < lines@.len() ==> (#[trigger] lines@[k])@ == all[k],
            parser.pending() == state_after(all.take(i as int)),
            parser.catalog() == catalog_of(all.take(i as int)),
        decreases lines.len() - i,
    {
        assert(all.take(i + 1).drop_last() =~= all.take(i as int));
        assert(all.take(i + 1).last() == all[i as int]);
        parser.feed_chars(&lines[i]);
        i += 1;
    }
    assert(all.take(i as int) =~= all);
    proof {
        lemma_parsed_channel_count(all);
    }
    parser.finish()
}

/// Whether `line` is a directive line that announces a channel.
pub open spec fn is_matched_directive(line: Seq<char>) -> bool {
    is_directive_line(line) && directive_of(line).is_some()
}

/// Whether the nearest line before position `at` that is not passed over is
/// a directive that announces a channel.
pub open spec fn follows_directive(lines: Seq<Seq<char>>, at: int) -> bool {
    exists|d: int|
        0 <= d < at && is_matched_directive(#[trigger] lines[d]) && forall|k: int|
            d < k < at ==> is_ignored_line(#[trigger] lines[k])
}

/// Whether the line at position `at` gives a stream address to a directive
/// that announces a channel.
pub open spec fn completes_channel(lines: Seq<Seq<char>>, at: int) -> bool {
    0 <= at < lines.len() && is_stream_line(lines[at]) && follows_directive(lines, at)
}

/// The positions of the lines that give a stream address to a directive.
pub open spec fn completing_lines(lines: Seq<Seq<char>>) -> Set<int> {
    Set::new(|at: int| completes_channel(lines, at))
}

/// Whether every channel of `catalog` has a thumbnail address.
pub open spec fn icons_present(catalog: Seq<CategoryView>) -> bool {
    forall|i: int, j: int|
        0 <= i < catalog.len() && 0 <= j < catalog[i].channels.len()
            ==> (#[trigger] catalog[i].channels[j]).icon_url.len() > 0
}

proof fn lemma_follows_in_prefix(lines: Seq<Seq<char>>, shorter: Seq<Seq<char>>, at: int)
    requires
        at <= shorter.len() <= lines.len(),
        forall|k: int| 0 <= k < shorter.len() ==> shorter[k] == lines[k],
    ensures
        follows_directive(lines, at) == follows_directive(shorter, at),
{
    if follows_directive(lines, at) {
        let d = choose|d: int|
            0 <= d < at && is_matched_directive(#[trigger] lines[d]) && forall|k: int|
                d < k < at ==> is_ignored_line(#[trigger] lines[k]);
        assert(is_matched_directive(shorter[d]));
        assert forall|k: int| d < k < at implies is_ignored_line(#[trigger] shorter[k]) by {
            assert(is_ignored_line(lines[k]));
        }
    }
    if follows_directive(shorter, at) {
        let d = choose|d: int|
            0 <= d < at && is_matched_directive(#[trigger] shorter[d]) && forall|k: int|
                d < k < at ==> is_ignored_line(#[trigger] shorter[k]);
        assert(is_matched_directive(lines[d]));
        assert forall|k: int| d < k < at implies is_ignored_line(#[trigger] lines[k]) by {
            assert(is_ignored_line(shorter[k]));
        }
    }
}

/// A channel waits for its address after `lines` exactly where the nearest
/// line that was not passed over is a directive that announces a channel.
pub proof fn lemma_state_follows_directive(lines: Seq<Seq<char>>)
    ensures
        state_after(lines).is_some() == follows_directive(lines, lines.len() as int),
    decreases lines.len(),
{
    let n = lines.len() as int;
    if n > 0 {
        let shorter = lines.drop_last();
        let last = lines.last();
        lemma_state_follows_directive(shorter);
        lemma_follows_in_prefix(lines, shorter, n - 1);
        if follows_directive(lines, n) {
            let d = choose|d: int|
                0 <= d < n && is_matched_directive(#[trigger] lines[d]) && forall|k: int|
                    d < k < n ==> is_ignored_line(#[trigger] lines[k]);
            if d < n - 1 {
                assert(is_ignored_line(lines[n - 1]));
                assert(is_matched_directive(lines[d]));
                assert forall|k: int| d < k < n - 1 implies is_ignored_line(#[trigger] lines[k]) by {}
                assert(follows_directive(lines, n - 1));
            }
        }
        if is_directive_line(last) {
            if directive_of(last).is_some() {
                assert(is_matched_directive(lines[n - 1]));
            }
        } else if !is_stream_line(last) {
            if follows_directive(lines, n - 1) {
                let d = choose|d: int|
                    0 <= d < n - 1 && is_matched_directive(#[trigger] lines[d]) && forall|k: int|
                        d < k < n - 1 ==> is_ignored_line(#[trigger] lines[k]);
                assert(is_matched_directive(lines[d]));
                assert forall|k: int| d < k < n implies is_ignored_line(#[trigger] lines[k]) by {}
            }
        }
    }
}

/// Adding a channel that has a thumbnail address keeps every channel with one.
proof fn lemma_with_channel_keeps_icons(
    catalog: Seq<CategoryView>,
    name: Seq<char>,
    channel: ChannelView,
)
    requires
        icons_present(catalog),
        channel.icon_url.len() > 0,
    ensures
        icons_present(with_channel(catalog, name, channel)),
{
    let after = with_channel(catalog, name, channel);
    assert forall|i: int, j: int|
        0 <= i < after.len() && 0 <= j < after[i].channels.len() implies
        (#[trigger] after[i].channels[j]).icon_url.len() > 0 by {
        if i < catalog.len() && j < catalog[i].channels.len() {
            assert(after[i].channels[j] == catalog[i].channels[j]);
        }
    }
}

/// The number of parsed channels is the number of stream lines that follow
/// a directive which announces a channel, with nothing but lines that are
/// passed over in between. No two categories of the parsed catalog share a
/// name, and every parsed channel has a thumbnail address.
pub proof fn lemma_parsed_channel_count(lines: Seq<Seq<char>>)
    ensures
        completing_lines(lines).finite(),
        total_channels(catalog_of(lines)) == completing_lines(lines).len(),
        names_unique(catalog_of(lines)),
        icons_present(catalog_of(lines)),
    decreases lines.len(),
{
    let n = lines.len() as int;
    if n == 0 {
        assert(completing_lines(lines) =~= Set::<int>::empty());
    } else {
        let shorter = lines.drop_last();
        let last = lines.last();
        lemma_parsed_channel_count(shorter);
        lemma_state_follows_directive(shorter);
        lemma_follows_in_prefix(lines, shorter, n - 1);
        assert forall|at: int| 0 <= at < n - 1 implies completes_channel(lines, at)
            == completes_channel(shorter, at) by {
            lemma_follows_in_prefix(lines, shorter, at);
        }
        let before = catalog_of(shorter);
        match state_after(shorter) {
            Some(pending) => {
                if is_stream_line(last) {
                    let channel = channel_of(pending, last);
                    assert(channel.icon_url.len() > 0) by {
                        reveal_strlit("/static/placeholder.png");
                    }
                    lemma_with_channel_keeps_names(before, pending.category, channel);
                    lemma_with_channel_keeps_icons(before, pending.category, channel);
                    assert(completes_channel(lines, n - 1));
                    assert(completing_lines(lines) =~= completing_lines(shorter).insert(n - 1));
                } else {
                    assert(completing_lines(lines) =~= completing_lines(shorter));
                }
            },
            None => {
                assert(completing_lines(lines) =~= completing_lines(shorter));
            },
        }
    }
}

/// A directive that names no group announces a channel of "Uncategorized";
/// one whose group is empty announces a channel of "No Category". No
/// directive announces a channel of a category without a name.
pub proof fn lemma_category_defaults(line: Seq<char>)
    ensures
        !occurs_in(head_of(line), "group-title=\""@) && !occurs_in(head_of(line), "group=\""@)
            ==> directive_of(line).is_some() && directive_of(line).unwrap().category
            == "Uncategorized"@,
        group_of(head_of(line)) == Some(Seq::<char>::empty()) && directive_of(line).is_some()
            ==> directive_of(line).unwrap().category == "No Category"@,
        directive_of(line).is_some() ==> directive_of(line).unwrap().category.len() > 0,
{
    let head = head_of(line);
    reveal_strlit("group-title=\"");
    reveal_strlit("group-title=\"\"");
    reveal_strlit("group=\"");
    reveal_strlit("group=\"\"");
    reveal_strlit("No Category");
    reveal_strlit("Uncategorized");
    if !occurs_in(head, "group-title=\""@) && !occurs_in(head, "group=\""@) {
        assert forall|at: int| !occurs_at(head, "group-title=\"\""@, at) by {
            if occurs_at(head, "group-title=\"\""@, at) {
                let longer = head.subrange(at, at + 14);
                assert forall|k: int| 0 <= k < 13 implies head.subrange(at, at + 13)[k]
                    == "group-title=\""@[k] by {
                    assert(longer[k] == head[at + k]);
                }
                assert(head.subrange(at, at + 13) =~= "group-title=\""@);
                assert(occurs_at(head, "group-title=\""@, at));
            }
        }
        assert forall|at: int| !occurs_at(head, "group=\"\""@, at) by {
            if occurs_at(head, "group=\"\""@, at) {
                let longer = head.subrange(at, at + 8);
                assert forall|k: int| 0 <= k < 7 implies head.subrange(at, at + 7)[k] == "group=\""@[k] by {
                    assert(longer[k] == head[at + k]);
                }
                assert(head.subrange(at, at + 7) =~= "group=\""@);
                assert(occurs_at(head, "group=\""@, at));
            }
        }
    }
}

} // verus!
