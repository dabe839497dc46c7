//! Audio sources: which ones are listed, and which one a request means.

use crate::audio::{
    card_for, list_cards, list_pw_nodes, parse_capture, pw_cat_args, resolve_card, route,
    AudioCard, CardView, NoCard, Route, RowView,
};
use crate::{audio, json, order, text};
use vstd::prelude::*;

verus! {

/// Whether a source is the sound card in a row of the kernel's list, at its
/// lowest capture device: the number of the card, then that of the device.
pub open spec fn is_sound_card(
    c: CardView,
    row: RowView,
    files: Seq<Seq<char>>,
    device: u32,
) -> bool {
    &&& c.device == "plughw:"@ + text::decimal(row.index as nat) + ","@ + text::decimal(
        device as nat,
    )
    &&& c.label == row.label
    &&& c.alt.len() == 0
    &&& exists|i: int|
        0 <= i < files.len() && audio::capture_number(#[trigger] files[i]) == Some(device)
    &&& forall|i: int|
        0 <= i < files.len() ==> (audio::capture_number(#[trigger] files[i]) matches Some(x)
            ==> device <= x)
}

/// Whether a source is a sound card in the row with this number.
pub open spec fn comes_from(
    c: CardView,
    rows: Seq<RowView>,
    listings: Seq<Option<Vec<String>>>,
    i: int,
) -> bool {
    &&& 0 <= i < rows.len()
    &&& i < listings.len()
    &&& listings[i] matches Some(names) && exists|d: u32|
        is_sound_card(c, rows[i], text::texts_of(names@), d)
}

/// Whether a row of the kernel's list is a card that captures.
pub open spec fn row_captures(listings: Seq<Option<Vec<String>>>, i: int) -> bool {
    &&& 0 <= i < listings.len()
    &&& listings[i] matches Some(names) && exists|k: int|
        0 <= k < names@.len() && audio::capture_number(#[trigger] text::texts_of(names@)[k]) is Some
}

/// How many of the first `n` rows are cards that capture.
pub open spec fn capturing(listings: Seq<Option<Vec<String>>>, n: int) -> int
    decreases n,
{
    if n <= 0 {
        0
    } else if row_captures(listings, n - 1) {
        capturing(listings, n - 1) + 1
    } else {
        capturing(listings, n - 1)
    }
}

proof fn rows_become_cards(rows: Seq<RowView>, listings: Seq<Option<Vec<String>>>, n: int)
    requires
        0 <= n <= rows.len(),
    ensures
        audio::sound_cards(rows, listings, n).len() == capturing(listings, n),
        capturing(listings, n) >= 0,
        forall|i: int|
            0 <= i < n && row_captures(listings, i) ==> {
                &&& 0 <= #[trigger] capturing(listings, i) < audio::sound_cards(
                    rows,
                    listings,
                    n,
                ).len()
                &&& comes_from(
                    audio::sound_cards(rows, listings, n)[capturing(listings, i)],
                    rows,
                    listings,
                    i,
                )
            },
    decreases n,
{
    if n > 0 {
        rows_become_cards(rows, listings, n - 1);
        let before = audio::sound_cards(rows, listings, n - 1);
        let all = audio::sound_cards(rows, listings, n);
        let i = n - 1;
        if i < listings.len() {
            if let Some(names) = listings[i] {
                let files = text::texts_of(names@);
                audio::lowest_is_least(files);
                if let Some(d) = audio::lowest_capture(files) {
                    let k = choose|k: int|
                        0 <= k < files.len() && audio::capture_number(#[trigger] files[k])
                            == Some(d);
                    assert(audio::capture_number(text::texts_of(names@)[k]) is Some);
                    assert(row_captures(listings, i));
                    assert(is_sound_card(all.last(), rows[i], files, d));
                    assert(comes_from(all[before.len() as int], rows, listings, i));
                } else {
                    assert(!row_captures(listings, i));
                }
            }
        }
        assert forall|x: int| 0 <= x < n && row_captures(listings, x) implies {
            &&& 0 <= #[trigger] capturing(listings, x) < all.len()
            &&& comes_from(all[capturing(listings, x)], rows, listings, x)
        } by {
            if x < n - 1 {
                assert(all[capturing(listings, x)] == before[capturing(listings, x)]);
            }
        }
    }
}

/// PipeWire's sources are the list where there are any. Else each sound card of
/// the kernel's list that captures is a source, in the order of the list, and
/// there is no other one: `plughw:`, the number of the card, a comma, and the
/// number of its lowest capture device.
pub proof fn sound_cards_are_listed(
    nodes: Vec<AudioCard>,
    list: Option<&str>,
    listings: &Vec<Option<Vec<String>>>,
    cards: Vec<AudioCard>,
)
    requires
        call_ensures(list_cards, (nodes, list, listings), cards),
    ensures
        nodes@.len() > 0 ==> audio::card_views(cards@) == audio::card_views(nodes@),
        nodes@.len() == 0 && list is None ==> cards@.len() == 0,
        nodes@.len() == 0 && list is Some ==> {
            let rows = audio::rows_of(audio::lines_from(list->0@, 0));
            &&& cards@.len() == capturing(listings@, rows.len() as int)
            &&& forall|i: int|
                0 <= i < rows.len() && row_captures(listings@, i) ==> {
                    &&& 0 <= #[trigger] capturing(listings@, i) < cards@.len()
                    &&& comes_from(cards@[capturing(listings@, i)]@, rows, listings@, i)
                }
        },
{
    let views = audio::card_views(cards@);
    assert(views.len() == cards@.len());
    if nodes@.len() == 0 {
        if let Some(l) = list {
            let rows = audio::rows_of(audio::lines_from(l@, 0));
            rows_become_cards(rows, listings@, rows.len() as int);
            assert forall|i: int| 0 <= i < rows.len() && row_captures(listings@, i) implies {
                &&& 0 <= #[trigger] capturing(listings@, i) < cards@.len()
                &&& comes_from(cards@[capturing(listings@, i)]@, rows, listings@, i)
            } by {
                assert(views[capturing(listings@, i)] == cards@[capturing(listings@, i)]@);
            }
        }
    }
}

/// The file of a capture device is `pcm`, its number and `c`.
pub proof fn capture_files_have_numbers(name: &str, n: u32, r: Option<u32>)
    requires
        call_ensures(parse_capture, (name,), r),
        name@ == "pcm"@ + text::decimal(n as nat) + "c"@,
    ensures
        r == Some(n),
{
    reveal_strlit("pcm");
    reveal_strlit("c");
    text::decimal_reads_back(n);
    let d = text::decimal(n as nat);
    assert(name@.subrange(0, 3) =~= "pcm"@);
    assert(name@.skip(3) =~= d + "c"@);
    assert((d + "c"@).drop_last() =~= d);
    assert((d + "c"@).last() == 'c');
}

/// A text as requests and sources are compared: in lowercase, with blanks for
/// underscores.
pub open spec fn folded(s: Seq<char>) -> Seq<char> {
    let low = text::lowercase(s);
    Seq::new(
        low.len(),
        |i: int|
            if low[i] == '_' {
                ' '
            } else {
                low[i]
            },
    )
}

/// Whether a request is part of the label of a source and its second text.
pub open spec fn means(wanted: Seq<char>, c: CardView) -> bool {
    let (hay, needle) = (folded(c.label + " "@ + c.alt), folded(wanted));
    exists|at: int|
        0 <= at && at + needle.len() <= hay.len() && #[trigger] hay.subrange(
            at,
            at + needle.len(),
        ) == needle
}

proof fn meaning_is_matching(wanted: Seq<char>, c: CardView)
    ensures
        means(wanted, c) == audio::card_matches(wanted)(c),
{
    let (hay, needle) = (folded(c.label + " "@ + c.alt), folded(wanted));
    assert(hay =~= audio::haystack(c));
    assert(needle =~= audio::needle(wanted));
    if means(wanted, c) {
        let at = choose|at: int|
            0 <= at && at + needle.len() <= hay.len() && #[trigger] hay.subrange(
                at,
                at + needle.len(),
            ) == needle;
        assert(text::stands_at(hay, at, needle));
    }
    if audio::card_matches(wanted)(c) {
        let at = choose|at: int| text::stands_at(hay, at, needle);
        assert(hay.subrange(at, at + needle.len()) == needle);
    }
}

/// A request gets the device of the first source that it means, and fails
/// exactly where it means none.
pub proof fn requests_get_the_first_source(
    cards: &Vec<AudioCard>,
    wanted: &str,
    r: Result<String, NoCard>,
)
    requires
        call_ensures(resolve_card, (cards, wanted), r),
    ensures
        match r {
            Ok(device) => exists|i: int|
                0 <= i < cards@.len() && (#[trigger] cards@[i])@.device == device@ && means(
                    wanted@,
                    cards@[i]@,
                ) && forall|j: int| 0 <= j < i ==> !means(wanted@, (#[trigger] cards@[j])@),
            Err(e) => e.wanted@ == wanted@ && forall|j: int|
                0 <= j < cards@.len() ==> !means(wanted@, (#[trigger] cards@[j])@),
        },
{
    let views = audio::card_views(cards@);
    let p = audio::card_matches(wanted@);
    let at = order::first(views, p);
    order::first_means(views, p);
    assert forall|j: int| 0 <= j < cards@.len() implies means(wanted@, (#[trigger] cards@[j])@)
        == p(views[j]) by {
        meaning_is_matching(wanted@, cards@[j]@);
    }
    if at < views.len() {
        assert(views[at] == cards@[at]@);
        assert(p(views[at]));
        assert forall|j: int| 0 <= j < at implies !means(wanted@, (#[trigger] cards@[j])@) by {
            assert(!p(views[j]));
        }
    } else {
        assert forall|j: int| 0 <= j < cards@.len() implies !means(
            wanted@,
            (#[trigger] cards@[j])@,
        ) by {
            assert(!p(views[j]));
        }
    }
}

/// A PipeWire object is a source exactly where it has a name and is a source or
/// a sink. Its device leads back to its name; a sink is marked as a monitor, and
/// without a description the name stands in.
pub proof fn nodes_become_sources(
    class: Option<&str>,
    name: Option<&str>,
    description: Option<&str>,
    r: Option<AudioCard>,
)
    requires
        call_ensures(card_for, (class, name, description), r),
    ensures
        r is Some <==> name is Some && name->0@.len() > 0 && class is Some && (class->0@
            == "Audio/Source"@ || class->0@ == "Audio/Sink"@),
        r matches Some(c) ==> {
            let shown = if description is Some {
                description->0@
            } else {
                name->0@
            };
            &&& c@.device == "pw:"@ + name->0@
            &&& c@.alt == name->0@
            &&& class->0@ == "Audio/Source"@ ==> c@.label == shown
            &&& class->0@ == "Audio/Sink"@ ==> c@.label == shown + " (monitor)"@
        },
{
    reveal_strlit("Audio/Source");
    reveal_strlit("Audio/Sink");
    assert("Audio/Source"@.len() == 12 && "Audio/Sink"@.len() == 10);
}

/// Every PipeWire object that is a source has its device in the list.
pub proof fn all_nodes_are_listed(objects: Seq<audio::Texts>, i: int)
    requires
        0 <= i < objects.len(),
        audio::node_card(objects[i]) is Some,
    ensures
        audio::has_device(audio::node_cards(objects), audio::node_card(objects[i])->0.device),
    decreases objects.len(),
{
    let before = audio::node_cards(objects.drop_last());
    let all = audio::node_cards(objects);
    let device = audio::node_card(objects[i])->0.device;
    if i < objects.len() - 1 {
        assert(objects.drop_last()[i] == objects[i]);
        all_nodes_are_listed(objects.drop_last(), i);
        let k = choose|k: int| 0 <= k < before.len() && #[trigger] before[k].device == device;
        assert(all[k] == before[k]);
    } else {
        let c = audio::node_card(objects[i])->0;
        if !audio::has_device(before, device) {
            assert(all[before.len() as int] == c);
        }
    }
}

/// Every source in the list is one of the PipeWire objects, and the first one
/// with its device.
pub proof fn listed_nodes_are_objects(objects: Seq<audio::Texts>, k: int) -> (i: int)
    requires
        0 <= k < audio::node_cards(objects).len(),
    ensures
        0 <= i < objects.len(),
        audio::node_card(objects[i]) == Some(audio::node_cards(objects)[k]),
        forall|j: int|
            0 <= j < i ==> (audio::node_card(#[trigger] objects[j]) matches Some(c) ==> c.device
                != audio::node_cards(objects)[k].device),
    decreases objects.len(),
{
    let t = objects.drop_last();
    let before = audio::node_cards(t);
    let all = audio::node_cards(objects);
    let last = objects.len() - 1;
    if k < before.len() {
        assert(all[k] == before[k]);
        let i = listed_nodes_are_objects(t, k);
        assert(t[i] == objects[i]);
        assert forall|j: int| 0 <= j < i implies (audio::node_card(#[trigger] objects[j]) matches
            Some(c) ==> c.device != all[k].device) by {
            assert(t[j] == objects[j]);
        }
        i
    } else {
        assert forall|j: int| 0 <= j < last implies (audio::node_card(
            #[trigger] objects[j],
        ) matches Some(c) ==> c.device != all[k].device) by {
            assert(t[j] == objects[j]);
            if audio::node_card(t[j]) is Some {
                all_nodes_are_listed(t, j);
            }
        }
        last
    }
}

/// What is listed of a dump is what its objects are, by their class, their name
/// and their description, each device once.
pub proof fn dumps_list_their_objects(dump: &[u8], cards: Vec<AudioCard>, j: int, k: int) -> (i:
    int)
    requires
        call_ensures(list_pw_nodes, (Some(dump),), cards),
        json::json_array(dump@) is Some,
        0 <= j < cards@.len(),
        0 <= k < cards@.len(),
    ensures
        ({
            let objects = json::json_array(dump@)->0;
            let o = objects[i];
            &&& 0 <= i < objects.len()
            &&& json::text_at(o, seq!["info"@, "props"@, "node.name"@]) == Some(cards@[k].alt@)
            &&& cards@[k].device@ == "pw:"@ + cards@[k].alt@
            &&& j != k ==> cards@[j].device@ != cards@[k].device@
            &&& json::text_at(o, seq!["info"@, "props"@, "media.class"@]) == Some("Audio/Source"@)
                || json::text_at(o, seq!["info"@, "props"@, "media.class"@]) == Some(
                "Audio/Sink"@,
            )
        }),
{
    let objects = json::json_array(dump@)->0;
    let views = audio::card_views(cards@);
    assert(views[k] == cards@[k]@ && views[j] == cards@[j]@);
    audio::node_devices_differ(objects);
    let i = listed_nodes_are_objects(objects, k);
    reveal_strlit("Audio/Source");
    reveal_strlit("Audio/Sink");
    if j < k {
        assert(views[j].device != views[k].device);
    } else if k < j {
        assert(views[k].device != views[j].device);
    }
    i
}

/// A dump that is no list of objects holds no source, and neither does none.
pub proof fn bad_dumps_hold_nothing(dump: Option<&[u8]>, cards: Vec<AudioCard>)
    requires
        call_ensures(list_pw_nodes, (dump,), cards),
        dump matches Some(d) ==> json::json_array(d@) is None,
    ensures
        cards@.len() == 0,
{
    assert(audio::card_views(cards@).len() == cards@.len());
}

/// A device is a PipeWire node exactly where `pw:` stands in front of it, and
/// the rest is its name.
pub proof fn prefixes_tell_nodes(device: &str, r: Route)
    requires
        call_ensures(route, (device,), r),
    ensures
        r matches Route::PipeWire(target) ==> device@ == "pw:"@ + target@,
        r is Alsa ==> !(device@.len() >= 3 && device@[0] == 'p' && device@[1] == 'w' && device@[2]
            == ':'),
{
    reveal_strlit("pw:");
    if device@.len() >= 3 && device@[0] == 'p' && device@[1] == 'w' && device@[2] == ':' {
        assert(device@.subrange(0, 3) =~= "pw:"@);
        assert(text::stands_at(device@, 0, "pw:"@));
    }
    if let Route::PipeWire(target) = r {
        assert(device@ =~= "pw:"@ + target@);
    }
}

/// A recording is asked for with its target, its rate and its channels, each
/// behind its flag.
pub proof fn recordings_name_their_target(
    target: &str,
    rate: u32,
    channels: u32,
    args: Vec<String>,
)
    requires
        call_ensures(pw_cat_args, (target, rate, channels), args),
    ensures
        args@.len() == 10,
        args@[0]@ == "-r"@,
        args@[1]@ == "--target"@ && args@[2]@ == target@,
        args@[3]@ == "--rate"@ && text::number(args@[4]@) == Some(rate),
        args@[5]@ == "--channels"@ && text::number(args@[6]@) == Some(channels),
        args@[7]@ == "--format"@ && args@[8]@ == "s16"@,
        args@[9]@ == "-"@,
{
    let t = text::texts_of(args@);
    assert(t.len() == args@.len());
    assert(forall|i: int| 0 <= i < 10 ==> args@[i]@ == #[trigger] t[i]);
    text::decimal_reads_back(rate);
    text::decimal_reads_back(channels);
    assert(t[0] == "-r"@ && t[1] == "--target"@ && t[2] == target@ && t[3] == "--rate"@);
    assert(t[4] == text::decimal(rate as nat) && t[5] == "--channels"@);
    assert(t[6] == text::decimal(channels as nat) && t[7] == "--format"@);
    assert(t[8] == "s16"@ && t[9] == "-"@);
}

} // verus!
