//! Audio sources: the list of them, which one is meant, and where it is
//! captured from.

use crate::text::{append, chars, copy, equal, find, first_hit};
use crate::{json, order, text};
use vstd::prelude::*;

verus! {

/// An audio source.
#[derive(Clone, Debug)]
pub struct AudioCard {
    /// `pw:` and a node name, or `plughw:C,D`.
    pub device: String,
    pub label: String,
    /// A second text to match against: the PipeWire node name.
    pub alt: String,
}

/// An audio source, as a value.
pub struct CardView {
    pub device: Seq<char>,
    pub label: Seq<char>,
    pub alt: Seq<char>,
}

impl View for AudioCard {
    type V = CardView;

    open spec fn view(&self) -> CardView {
        CardView { device: self.device@, label: self.label@, alt: self.alt@ }
    }
}

/// The values of a list of audio sources.
pub open spec fn card_views(cards: Seq<AudioCard>) -> Seq<CardView> {
    cards.map_values(|c: AudioCard| c@)
}

/// The strings in a JSON value, by the keys that lead to them.
pub type Texts = Map<Seq<Seq<char>>, Seq<char>>;

/// A property of a PipeWire object.
pub open spec fn property(o: Texts, key: Seq<char>) -> Option<Seq<char>> {
    json::text_at(o, seq!["info"@, "props"@, key])
}

/// A text, or the empty one where there is none.
pub open spec fn or_empty(s: Option<Seq<char>>) -> Seq<char> {
    match s {
        Some(t) => t,
        None => Seq::empty(),
    }
}

/// The audio source that a PipeWire object with these properties is: a source,
/// or the monitor of a sink, which is how virtual devices such as mix buses
/// expose their audio.
pub open spec fn card_from(
    class: Option<Seq<char>>,
    name: Option<Seq<char>>,
    description: Option<Seq<char>>,
) -> Option<CardView> {
    let class = or_empty(class);
    let name = or_empty(name);
    let described = match description {
        Some(d) => d,
        None => name,
    };
    if name.len() == 0 || !(class == "Audio/Source"@ || class == "Audio/Sink"@) {
        None
    } else {
        Some(
            CardView {
                device: "pw:"@ + name,
                label: if class == "Audio/Sink"@ {
                    described + " (monitor)"@
                } else {
                    described
                },
                alt: name,
            },
        )
    }
}

/// The audio source that a PipeWire object is.
pub open spec fn node_card(o: Texts) -> Option<CardView> {
    card_from(
        property(o, "media.class"@),
        property(o, "node.name"@),
        property(o, "node.description"@),
    )
}

/// Whether a source with this device is in the list.
pub open spec fn has_device(cards: Seq<CardView>, device: Seq<char>) -> bool {
    exists|i: int| 0 <= i < cards.len() && #[trigger] cards[i].device == device
}

/// The audio sources among PipeWire objects, each device once.
pub open spec fn node_cards(objects: Seq<Texts>) -> Seq<CardView>
    decreases objects.len(),
{
    if objects.len() == 0 {
        Seq::empty()
    } else {
        let before = node_cards(objects.drop_last());
        match node_card(objects.last()) {
            Some(c) => with_card(before, c),
            None => before,
        }
    }
}

/// A list with one more source, where its device is not in the list yet.
pub open spec fn with_card(cards: Seq<CardView>, c: CardView) -> Seq<CardView> {
    if has_device(cards, c.device) {
        cards
    } else {
        cards.push(c)
    }
}

/// The audio sources in a dump of PipeWire's objects. Without a dump, or where
/// it is no JSON array, there are none.
pub open spec fn dumped_cards(dump: Option<Seq<u8>>) -> Seq<CardView> {
    match dump {
        Some(d) => match json::json_array(d) {
            Some(objects) => node_cards(objects),
            None => Seq::empty(),
        },
        None => Seq::empty(),
    }
}

/// Whether a source with this device is in the list.
pub fn lists_device(cards: &Vec<AudioCard>, device: &str) -> (r: bool)
    ensures
        r == has_device(card_views(cards@), device@),
{
    let ghost views = card_views(cards@);
    let mut i: usize = 0;
    while i < cards.len()
        invariant
            i <= cards@.len(),
            views == card_views(cards@),
            forall|k: int| 0 <= k < i ==> #[trigger] views[k].device != device@,
        decreases cards.len() - i,
    {
        assert(views[i as int] == cards@[i as int]@);
        if equal(cards[i].device.as_str(), device) {
            assert(views[i as int].device == device@);
            return true;
        }
        i += 1;
    }
    false
}

/// The view of an optional source.
pub open spec fn opt_card_view(c: Option<AudioCard>) -> Option<CardView> {
    match c {
        Some(c) => Some(c@),
        None => None,
    }
}

/// The audio source that a PipeWire object with these properties is.
pub fn card_for(class: Option<&str>, name: Option<&str>, description: Option<&str>) -> (r: Option<
    AudioCard,
>)
    ensures
        opt_card_view(r) == card_from(
            text::opt_str_view(class),
            text::opt_str_view(name),
            text::opt_str_view(description),
        ),
{
    proof {
        reveal_strlit("");
        assert(""@ =~= Seq::<char>::empty());
    }
    let class = class.unwrap_or("");
    let name = name.unwrap_or("");
    let sink = equal(class, "Audio/Sink");
    if name.is_empty() || !(equal(class, "Audio/Source") || sink) {
        return None;
    }
    let mut label = copy(description.unwrap_or(name));
    if sink {
        append(&mut label, " (monitor)");
    }
    let mut device = copy("pw:");
    append(&mut device, name);
    Some(AudioCard { device, label, alt: copy(name) })
}

/// Adds a source, where its device is not in the list yet.
pub fn add_card(cards: &mut Vec<AudioCard>, c: AudioCard)
    ensures
        card_views(final(cards)@) == with_card(card_views(old(cards)@), c@),
{
    if !lists_device(cards, c.device.as_str()) {
        let ghost before = card_views(cards@);
        let ghost added = c@;
        cards.push(c);
        assert(card_views(cards@) =~= before.push(added));
    }
}

/// PipeWire's capture targets, from the output of its dump: real sources plus
/// sink monitors.
pub fn list_pw_nodes(dump: Option<&[u8]>) -> (cards: Vec<AudioCard>)
    ensures
        card_views(cards@) == dumped_cards(
            match dump {
                Some(d) => Some(d@),
                None => None,
            },
        ),
{
    let mut cards: Vec<AudioCard> = Vec::new();
    let doc = match dump {
        Some(d) => d,
        None => {
            assert(card_views(cards@) =~= Seq::empty());
            return cards;
        },
    };
    let objects = match json::read_array(doc) {
        Some(v) => v,
        None => {
            assert(card_views(cards@) =~= Seq::empty());
            return cards;
        },
    };
    let ghost texts = objects@.map_values(|x: serde_json::Value| json::json_texts(x));
    let mut i: usize = 0;
    assert(card_views(cards@) =~= node_cards(texts.take(0)));
    while i < objects.len()
        invariant
            i <= objects@.len(),
            texts == objects@.map_values(|x: serde_json::Value| json::json_texts(x)),
            card_views(cards@) == node_cards(texts.take(i as int)),
        decreases objects.len() - i,
    {
        assert(texts.take(i + 1).drop_last() =~= texts.take(i as int));
        assert(texts.take(i + 1).last() == json::json_texts(objects@[i as int]));
        let o = &objects[i];
        let class = json::text_in(o, "info", "props", "media.class");
        let name = json::text_in(o, "info", "props", "node.name");
        let description = json::text_in(o, "info", "props", "node.description");
        if let Some(c) = card_for(class, name, description) {
            add_card(&mut cards, c);
        }
        i += 1;
    }
    assert(texts.take(i as int) =~= texts);
    cards
}

/// No device is listed twice.
pub open spec fn devices_differ(cards: Seq<CardView>) -> bool {
    forall|i: int, j: int|
        0 <= i < j < cards.len() ==> #[trigger] cards[i].device != #[trigger] cards[j].device
}

/// However many PipeWire objects share a name, its device is listed once.
pub proof fn node_devices_differ(objects: Seq<Texts>)
    ensures
        devices_differ(node_cards(objects)),
    decreases objects.len(),
{
    if objects.len() > 0 {
        node_devices_differ(objects.drop_last());
    }
}

/// Every source among PipeWire objects can be told by the prefix of its
/// device, and has a node name.
pub proof fn node_devices_are_nodes(objects: Seq<Texts>)
    ensures
        forall|i: int|
            0 <= i < node_cards(objects).len() ==> {
                let c = #[trigger] node_cards(objects)[i];
                c.device == "pw:"@ + c.alt && c.alt.len() > 0
            },
    decreases objects.len(),
{
    if objects.len() > 0 {
        node_devices_are_nodes(objects.drop_last());
        let all = node_cards(objects);
        let before = node_cards(objects.drop_last());
        assert forall|i: int| 0 <= i < all.len() implies {
            let c = #[trigger] all[i];
            c.device == "pw:"@ + c.alt && c.alt.len() > 0
        } by {
            if i < before.len() {
                assert(all[i] == before[i]);
            }
        }
    }
}

/// The lines of a text from position `from`: they end at a line feed, with a
/// carriage return before it or not; the last one may lack the end.
pub open spec fn lines_from(s: Seq<char>, from: int) -> Seq<Seq<char>>
    decreases s.len() - from,
{
    if from < 0 || from >= s.len() {
        Seq::empty()
    } else {
        let end = text::position(s, from, '\n');
        if from <= end < s.len() {
            seq![without_return(s.subrange(from, end))] + lines_from(s, end + 1)
        } else {
            seq![s.subrange(from, s.len() as int)]
        }
    }
}

/// A line without the carriage return at its end.
pub open spec fn without_return(line: Seq<char>) -> Seq<char> {
    if line.len() > 0 && line.last() == '\r' {
        line.drop_last()
    } else {
        line
    }
}

/// A sound card, as the kernel lists it.
#[derive(Clone, Debug)]
pub struct CardRow {
    pub index: u32,
    pub label: String,
}

/// A sound card, as a value.
pub struct RowView {
    pub index: u32,
    pub label: Seq<char>,
}

impl View for CardRow {
    type V = RowView;

    open spec fn view(&self) -> RowView {
        RowView { index: self.index, label: self.label@ }
    }
}

/// The values of a list of sound cards.
pub open spec fn row_views(rows: Seq<CardRow>) -> Seq<RowView> {
    rows.map_values(|r: CardRow| r@)
}

/// The sound card on a line such as ` 0 [ShortName     ]: Long card name`; any
/// other line has none.
pub open spec fn row_of(line: Seq<char>) -> Option<RowView> {
    let t = text::trimmed_start(line);
    let space = text::position(t, 0, ' ');
    let open = text::position(t, space, '[');
    let close = text::position(t, open, ']');
    if space >= t.len() || open >= t.len() || close + 1 >= t.len() || t[close + 1] != ':' {
        None
    } else {
        match text::number(t.take(space)) {
            Some(index) => Some(RowView { index, label: text::trimmed(t.skip(close + 2)) }),
            None => None,
        }
    }
}

/// The sound cards on a list of lines.
pub open spec fn rows_of(lines: Seq<Seq<char>>) -> Seq<RowView>
    decreases lines.len(),
{
    if lines.len() == 0 {
        Seq::empty()
    } else {
        match row_of(lines[0]) {
            Some(r) => seq![r] + rows_of(lines.skip(1)),
            None => rows_of(lines.skip(1)),
        }
    }
}

/// The view of an optional sound card.
pub open spec fn opt_row_view(r: Option<CardRow>) -> Option<RowView> {
    match r {
        Some(r) => Some(r@),
        None => None,
    }
}

/// The sound card on the line `v[from..to]`.
pub fn parse_row(v: &Vec<char>, from: usize, to: usize) -> (r: Option<CardRow>)
    requires
        from <= to <= v@.len(),
    ensures
        opt_row_view(r) == row_of(v@.subrange(from as int, to as int)),
{
    let line = slice(v, from, to);
    let start = text::skip_white(&line);
    let t = slice(&line, start, line.len());
    assert(t@ =~= text::trimmed_start(line@));
    let space = find(&t, 0, ' ');
    if space >= t.len() {
        return None;
    }
    let index = text::parse_range(&t, 0, space);
    assert(t@.subrange(0, space as int) =~= t@.take(space as int));
    let open = find(&t, space, '[');
    if open >= t.len() {
        return None;
    }
    let close = find(&t, open, ']');
    if close >= t.len() || close + 1 >= t.len() || t[close + 1] != ':' {
        return None;
    }
    match index {
        Some(index) => Some(CardRow { index, label: text::trim_from(&t, close + 2) }),
        None => None,
    }
}

/// The characters `v[from..to]`.
fn slice(v: &Vec<char>, from: usize, to: usize) -> (r: Vec<char>)
    requires
        from <= to <= v@.len(),
    ensures
        r@ == v@.subrange(from as int, to as int),
{
    let mut r: Vec<char> = Vec::new();
    let mut i: usize = from;
    while i < to
        invariant
            from <= i <= to <= v@.len(),
            r@ == v@.subrange(from as int, i as int),
        decreases to - i,
    {
        r.push(v[i]);
        i += 1;
    }
    r
}

/// The sound cards in the kernel's list of them.
pub fn card_rows(list: &str) -> (rows: Vec<CardRow>)
    ensures
        row_views(rows@) == rows_of(lines_from(list@, 0)),
{
    let v = chars(list);
    let mut rows: Vec<CardRow> = Vec::new();
    let mut from: usize = 0;
    assert(row_views(rows@) =~= Seq::empty());
    assert(Seq::empty() + rows_of(lines_from(list@, 0)) =~= rows_of(lines_from(list@, 0)));
    while from < v.len()
        invariant
            v@ == list@,
            from <= v@.len(),
            row_views(rows@) + rows_of(lines_from(list@, from as int)) == rows_of(
                lines_from(list@, 0),
            ),
        decreases v.len() - from,
    {
        let end = find(&v, from, '\n');
        let ghost rest = lines_from(list@, from as int);
        let mut to: usize = end;
        if end < v.len() && end > from && v[end - 1] == '\r' {
            to = end - 1;
        }
        proof {
            let line = list@.subrange(from as int, end as int);
            if end < v@.len() {
                assert(without_return(line) =~= list@.subrange(from as int, to as int));
                assert(rest.skip(1) =~= lines_from(list@, end + 1));
            } else {
                assert(rest.skip(1) =~= Seq::empty());
                assert(lines_from(list@, v@.len() as int) =~= Seq::empty());
            }
            assert(rest[0] == list@.subrange(from as int, to as int));
        }
        let ghost before = row_views(rows@);
        if let Some(r) = parse_row(&v, from, to) {
            let ghost added = r@;
            rows.push(r);
            proof {
                assert(row_views(rows@) =~= before.push(added));
                assert(before + (seq![added] + rows_of(rest.skip(1))) =~= row_views(rows@)
                    + rows_of(rest.skip(1)));
            }
        }
        if end < v.len() {
            from = end + 1;
        } else {
            from = end;
        }
    }
    assert(row_views(rows@) + Seq::empty() =~= row_views(rows@));
    rows
}

/// The number of a capture device among the files of a sound card: `pcm`, the
/// number, and `c`.
pub open spec fn capture_number(name: Seq<char>) -> Option<u32> {
    match text::after_prefix(name, "pcm"@) {
        Some(rest) => if rest.len() > 0 && rest.last() == 'c' {
            text::number(rest.drop_last())
        } else {
            None
        },
        None => None,
    }
}

/// The lowest capture device among the files of a sound card.
pub open spec fn lowest_capture(names: Seq<Seq<char>>) -> Option<u32>
    decreases names.len(),
{
    if names.len() == 0 {
        None
    } else {
        let before = lowest_capture(names.drop_last());
        match (before, capture_number(names.last())) {
            (Some(a), Some(b)) => Some(
                if b < a {
                    b
                } else {
                    a
                },
            ),
            (Some(a), None) => Some(a),
            (None, b) => b,
        }
    }
}

/// The lowest capture device is there exactly if there is one at all, and it
/// is one of them and not above any: the order of the files does not matter.
pub proof fn lowest_is_least(names: Seq<Seq<char>>)
    ensures
        (match lowest_capture(names) {
            Some(n) => {
                &&& exists|i: int|
                    0 <= i < names.len() && capture_number(#[trigger] names[i]) == Some(n)
                &&& forall|i: int|
                    0 <= i < names.len() ==> (capture_number(#[trigger] names[i]) matches Some(x)
                        ==> n <= x)
            },
            None => forall|i: int|
                0 <= i < names.len() ==> capture_number(#[trigger] names[i]) is None,
        }),
    decreases names.len(),
{
    if names.len() > 0 {
        let t = names.drop_last();
        lowest_is_least(t);
        assert(forall|i: int| 0 <= i < t.len() ==> names[i] == t[i]);
        if let Some(n) = lowest_capture(t) {
            let i = choose|i: int| 0 <= i < t.len() && capture_number(#[trigger] t[i]) == Some(n);
            assert(names[i] == t[i]);
        }
        let last = names.len() - 1;
        assert(names[last] == names.last());
    }
}

/// The number of a capture device among the files of a sound card.
pub fn parse_capture(name: &str) -> (r: Option<u32>)
    ensures
        r == capture_number(name@),
{
    match text::strip_prefix(name, "pcm") {
        Some(rest) => {
            let v = chars(rest.as_str());
            if v.len() > 0 && v[v.len() - 1] == 'c' {
                assert(v@.subrange(0, v@.len() - 1) =~= v@.drop_last());
                text::parse_range(&v, 0, v.len() - 1)
            } else {
                None
            }
        },
        None => None,
    }
}

/// The lowest capture device among the files of a sound card.
pub fn first_capture(names: &Vec<String>) -> (r: Option<u32>)
    ensures
        r == lowest_capture(text::texts_of(names@)),
{
    let ghost all = text::texts_of(names@);
    let mut best: Option<u32> = None;
    let mut i: usize = 0;
    while i < names.len()
        invariant
            i <= names@.len(),
            all == text::texts_of(names@),
            best == lowest_capture(all.take(i as int)),
        decreases names.len() - i,
    {
        assert(all.take(i + 1).drop_last() =~= all.take(i as int));
        assert(all.take(i + 1).last() == names@[i as int]@);
        if let Some(n) = parse_capture(names[i].as_str()) {
            best = match best {
                Some(b) => if n < b {
                    Some(n)
                } else {
                    Some(b)
                },
                None => Some(n),
            };
        }
        i += 1;
    }
    assert(all.take(i as int) =~= all);
    best
}

/// The files of a sound card, where its directory can be read.
pub open spec fn listing(listings: Seq<Option<Vec<String>>>, i: int) -> Option<Seq<Seq<char>>> {
    if 0 <= i < listings.len() {
        match listings[i] {
            Some(names) => Some(text::texts_of(names@)),
            None => None,
        }
    } else {
        None
    }
}

/// The audio source that a sound card is, where it can capture.
pub open spec fn row_card(row: RowView, files: Option<Seq<Seq<char>>>) -> Option<CardView> {
    match files {
        Some(names) => match lowest_capture(names) {
            Some(device) => Some(
                CardView {
                    device: "plughw:"@ + text::decimal(row.index as nat) + ","@ + text::decimal(
                        device as nat,
                    ),
                    label: row.label,
                    alt: Seq::empty(),
                },
            ),
            None => None,
        },
        None => None,
    }
}

/// The audio sources that the first `n` sound cards are.
pub open spec fn sound_cards(
    rows: Seq<RowView>,
    listings: Seq<Option<Vec<String>>>,
    n: int,
) -> Seq<CardView>
    decreases n,
{
    if n <= 0 {
        Seq::empty()
    } else {
        let before = sound_cards(rows, listings, n - 1);
        match row_card(rows[n - 1], listing(listings, n - 1)) {
            Some(c) => before.push(c),
            None => before,
        }
    }
}

/// All audio sources. PipeWire bridges sound cards too, so where it lists any
/// source its list is the complete one; else the sound cards are what there
/// is.
pub open spec fn all_cards(
    nodes: Seq<CardView>,
    list: Option<Seq<char>>,
    listings: Seq<Option<Vec<String>>>,
) -> Seq<CardView> {
    if nodes.len() > 0 {
        nodes
    } else {
        match list {
            Some(l) => {
                let rows = rows_of(lines_from(l, 0));
                sound_cards(rows, listings, rows.len() as int)
            },
            None => Seq::empty(),
        }
    }
}

/// All audio sources: PipeWire's where there are any, else the sound cards in
/// the kernel's list, with the files of each card that [`card_rows`] gives.
pub fn list_cards(
    nodes: Vec<AudioCard>,
    list: Option<&str>,
    listings: &Vec<Option<Vec<String>>>,
) -> (cards: Vec<AudioCard>)
    ensures
        card_views(cards@) == all_cards(
            card_views(nodes@),
            text::opt_str_view(list),
            listings@,
        ),
{
    if nodes.len() > 0 {
        return nodes;
    }
    let mut cards: Vec<AudioCard> = Vec::new();
    assert(card_views(cards@) =~= Seq::empty());
    let list = match list {
        Some(l) => l,
        None => {
            return cards;
        },
    };
    let rows = card_rows(list);
    let ghost views = row_views(rows@);
    let mut i: usize = 0;
    while i < rows.len()
        invariant
            i <= rows@.len(),
            views == row_views(rows@),
            card_views(cards@) == sound_cards(views, listings@, i as int),
        decreases rows.len() - i,
    {
        assert(views[i as int] == rows@[i as int]@);
        if i < listings.len() {
            if let Some(names) = &listings[i] {
                if let Some(device) = first_capture(names) {
                    let mut path = copy("plughw:");
                    append(&mut path, text::write_decimal(rows[i].index as u64).as_str());
                    append(&mut path, ",");
                    append(&mut path, text::write_decimal(device as u64).as_str());
                    let c = AudioCard {
                        device: path,
                        label: rows[i].label.clone(),
                        alt: String::new(),
                    };
                    let ghost before = card_views(cards@);
                    let ghost added = c@;
                    assert(added.alt =~= Seq::empty());
                    cards.push(c);
                    assert(card_views(cards@) =~= before.push(added));
                }
            }
        }
        i += 1;
    }
    cards
}

/// What a request for a source is compared by: lowercase, with blanks for
/// underscores.
pub open spec fn needle(substring: Seq<char>) -> Seq<char> {
    text::replaced(text::lowercase(substring), '_', ' ')
}

/// What a source is compared by: its label and its second text, in lowercase,
/// with blanks for underscores.
pub open spec fn haystack(c: CardView) -> Seq<char> {
    text::replaced(text::lowercase(c.label + " "@ + c.alt), '_', ' ')
}

/// Whether a source is meant by a request.
pub open spec fn card_matches(substring: Seq<char>) -> spec_fn(CardView) -> bool {
    |c: CardView| text::occurs(haystack(c), needle(substring))
}

/// The device of the first source that a request means.
pub open spec fn resolved_card(cards: Seq<CardView>, substring: Seq<char>) -> Option<Seq<char>> {
    let i = order::first(cards, card_matches(substring));
    if i < cards.len() {
        Some(cards[i].device)
    } else {
        None
    }
}

/// No source matches a request.
#[derive(Clone, Debug)]
pub struct NoCard {
    pub wanted: String,
}

impl NoCard {
    /// What is reported to the user.
    pub open spec fn report(self) -> Seq<char> {
        "no ALSA capture card matching "@ + text::quoted(self.wanted@)
    }

    /// What is reported to the user.
    pub fn message(&self) -> (r: String)
        ensures
            r@ == self.report(),
    {
        let mut r = copy("no ALSA capture card matching ");
        append(&mut r, text::quote(self.wanted.as_str()).as_str());
        r
    }
}

/// What each source is compared by.
pub fn haystacks(cards: &Vec<AudioCard>) -> (hays: Vec<String>)
    ensures
        text::texts_of(hays@) == card_views(cards@).map_values(|c: CardView| haystack(c)),
{
    let ghost want = card_views(cards@).map_values(|c: CardView| haystack(c));
    let mut hays: Vec<String> = Vec::new();
    let mut i: usize = 0;
    while i < cards.len()
        invariant
            i <= cards@.len(),
            want == card_views(cards@).map_values(|c: CardView| haystack(c)),
            text::texts_of(hays@) =~= want.take(i as int),
        decreases cards.len() - i,
    {
        let mut hay = copy(cards[i].label.as_str());
        append(&mut hay, " ");
        append(&mut hay, cards[i].alt.as_str());
        let ghost before = text::texts_of(hays@);
        let plain = text::replace(hay.to_lowercase().as_str(), '_', ' ');
        let ghost added = plain@;
        hays.push(plain);
        assert(text::texts_of(hays@) =~= before.push(added));
        assert(added == want[i as int]);
        i += 1;
    }
    assert(want.take(i as int) =~= want);
    hays
}

/// The device of the first source whose name contains `substring`.
pub fn resolve_card(cards: &Vec<AudioCard>, substring: &str) -> (r: Result<String, NoCard>)
    ensures
        (match r {
            Ok(device) => resolved_card(card_views(cards@), substring@) == Some(device@),
            Err(e) => resolved_card(card_views(cards@), substring@) is None && e.wanted@
                == substring@,
        }),
{
    let wanted = text::replace(substring.to_lowercase().as_str(), '_', ' ');
    let hays = haystacks(cards);
    let i = first_hit(&hays, wanted.as_str());
    proof {
        let views = card_views(cards@);
        let texts = text::texts_of(hays@);
        let p = card_matches(substring@);
        let q = text::holds(wanted@);
        assert(views.len() == texts.len());
        order::first_means(texts, q);
        assert forall|k: int| 0 <= k < views.len() implies p(#[trigger] views[k]) == q(texts[k]) by {
            assert(texts[k] == haystack(views[k]));
        }
        order::first_is(views, p, i as int);
    }
    if i < cards.len() {
        Ok(cards[i].device.clone())
    } else {
        Err(NoCard { wanted: copy(substring) })
    }
}

/// Where a device is captured from.
#[derive(Clone, Debug)]
pub enum Route {
    /// A PipeWire node, by its name.
    PipeWire(String),
    /// An ALSA device.
    Alsa,
}

/// Where a device is captured from: `pw:` stands in front of the name of a
/// PipeWire node, everything else is an ALSA device.
pub fn route(device: &str) -> (r: Route)
    ensures
        (match r {
            Route::PipeWire(target) => text::after_prefix(device@, "pw:"@) == Some(target@),
            Route::Alsa => text::after_prefix(device@, "pw:"@) is None,
        }),
{
    match text::strip_prefix(device, "pw:") {
        Some(target) => Route::PipeWire(target),
        None => Route::Alsa,
    }
}

/// The device of a PipeWire node leads back to that node.
pub proof fn node_routes_back(name: Seq<char>)
    ensures
        text::after_prefix("pw:"@ + name, "pw:"@) == Some(name),
{
    let whole = "pw:"@ + name;
    assert(whole.subrange(0, "pw:"@.len() as int) =~= "pw:"@);
    assert(whole.skip("pw:"@.len() as int) =~= name);
}

/// The arguments for a recording of a PipeWire node, as 16-bit samples on the
/// standard output.
pub open spec fn recorder_args(target: Seq<char>, rate: u32, channels: u32) -> Seq<Seq<char>> {
    seq![
        "-r"@,
        "--target"@,
        target,
        "--rate"@,
        text::decimal(rate as nat),
        "--channels"@,
        text::decimal(channels as nat),
        "--format"@,
        "s16"@,
        "-"@,
    ]
}

/// The arguments for a recording of a PipeWire node.
pub fn pw_cat_args(target: &str, rate: u32, channels: u32) -> (args: Vec<String>)
    ensures
        text::texts_of(args@) == recorder_args(target@, rate, channels),
{
    let mut args: Vec<String> = Vec::new();
    args.push(copy("-r"));
    args.push(copy("--target"));
    args.push(copy(target));
    args.push(copy("--rate"));
    args.push(text::write_decimal(rate as u64));
    args.push(copy("--channels"));
    args.push(text::write_decimal(channels as u64));
    args.push(copy("--format"));
    args.push(copy("s16"));
    args.push(copy("-"));
    assert(text::texts_of(args@) =~= recorder_args(target@, rate, channels));
    args
}

} // verus!
