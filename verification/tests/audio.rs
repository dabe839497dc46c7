use lancam::audio::{
    add_card, card_for, card_rows, first_capture, list_cards, list_pw_nodes, lists_device,
    parse_capture, pw_cat_args, resolve_card, route, AudioCard, Route,
};

fn card(device: &str, label: &str, alt: &str) -> AudioCard {
    AudioCard { device: device.to_string(), label: label.to_string(), alt: alt.to_string() }
}

fn triple(c: &AudioCard) -> (&str, &str, &str) {
    (&c.device, &c.label, &c.alt)
}

const DUMP: &str = r#"[
    {"id": 1, "info": {"props": {"media.class": "Audio/Source", "node.name": "alsa_input.brio",
        "node.description": "BRIO 4K"}}},
    {"id": 2, "info": {"props": {"media.class": "Audio/Sink", "node.name": "OpenXLR_stream"}}},
    {"id": 3, "info": {"props": {"media.class": "Video/Source", "node.name": "cam"}}},
    {"id": 4, "info": {"props": {"media.class": "Audio/Source", "node.name": ""}}},
    {"id": 5, "info": {"props": {"media.class": "Audio/Sink", "node.name": "alsa_input.brio",
        "node.description": "again"}}},
    {"id": 6, "info": null},
    {"id": 7, "info": {"props": {"media.class": 5, "node.name": "n"}}},
    {"id": 8, "info": {"props": {"media.class": "Audio/Source", "node.name": "d",
        "node.description": 1}}},
    "text", 7, null, []
]"#;

#[test]
fn pipewire_sources_and_monitors_are_listed() {
    let cards = list_pw_nodes(Some(DUMP.as_bytes()));
    let got: Vec<(&str, &str, &str)> = cards.iter().map(triple).collect();
    assert_eq!(
        got,
        vec![
            ("pw:alsa_input.brio", "BRIO 4K", "alsa_input.brio"),
            ("pw:OpenXLR_stream", "OpenXLR_stream (monitor)", "OpenXLR_stream"),
            ("pw:d", "d", "d"),
        ]
    );
}

#[test]
fn no_dump_lists_nothing() {
    assert!(list_pw_nodes(None).is_empty());
    assert!(list_pw_nodes(Some(b"{}")).is_empty());
    assert!(list_pw_nodes(Some(b"[1, 2")).is_empty());
    assert!(list_pw_nodes(Some(b"")).is_empty());
    assert!(list_pw_nodes(Some(b"[]")).is_empty());
}

#[test]
fn nodes_become_cards() {
    let c = card_for(Some("Audio/Source"), Some("mic"), Some("Desk mic")).unwrap();
    assert_eq!(triple(&c), ("pw:mic", "Desk mic", "mic"));
    let c = card_for(Some("Audio/Sink"), Some("mix"), Some("Mix")).unwrap();
    assert_eq!(triple(&c), ("pw:mix", "Mix (monitor)", "mix"));
    assert!(card_for(None, Some("mic"), None).is_none());
    assert!(card_for(Some("Audio/Source"), None, Some("x")).is_none());
    assert!(card_for(Some("Audio/Duplex"), Some("x"), None).is_none());
}

#[test]
fn a_device_is_listed_once() {
    let mut cards = vec![card("pw:a", "first", "a")];
    add_card(&mut cards, card("pw:a", "second", "a"));
    add_card(&mut cards, card("pw:b", "third", "b"));
    assert_eq!(cards.len(), 2);
    assert_eq!(cards[0].label, "first");
    assert!(lists_device(&cards, "pw:b") && !lists_device(&cards, "pw:c"));
}

const PROC: &str = " 0 [PCH            ]: HDA-Intel - HDA Intel PCH
                      HDA Intel PCH at 0x603f1c0000 irq 170
 1 [BRIO           ]: USB-Audio - Logitech BRIO
 2 [NoBracket HDMI: x
 3 [Tail           ]
x4 [Bad            ]: no
12 [Wave           ]:   Wave XLR\t
13 [Loop]]: two";

#[test]
fn alsa_cards_are_read_from_their_list() {
    let rows = card_rows(PROC);
    let got: Vec<(u32, &str)> = rows.iter().map(|r| (r.index, r.label.as_str())).collect();
    assert_eq!(
        got,
        vec![(0, "HDA-Intel - HDA Intel PCH"), (1, "USB-Audio - Logitech BRIO"), (12, "Wave XLR")]
    );
}

#[test]
fn capture_devices_are_found_in_card_directories() {
    assert_eq!(parse_capture("pcm0c"), Some(0));
    assert_eq!(parse_capture("pcm12c"), Some(12));
    assert_eq!(parse_capture("pcm0p"), None);
    assert_eq!(parse_capture("pcmc"), None);
    assert_eq!(parse_capture("pcm"), None);
    assert_eq!(parse_capture("id"), None);
    let names = |v: &[&str]| v.iter().map(|s| s.to_string()).collect::<Vec<String>>();
    assert_eq!(first_capture(&names(&["pcm7p", "pcm3c", "id", "pcm1c"])), Some(1));
    assert_eq!(first_capture(&names(&["pcm7p"])), None);
    assert_eq!(first_capture(&vec![]), None);
}

#[test]
fn alsa_stands_in_without_pipewire() {
    let names = |v: &[&str]| Some(v.iter().map(|s| s.to_string()).collect::<Vec<String>>());
    let listings = vec![names(&["pcm0p", "pcm2c", "pcm0c"]), None, names(&["pcm0p"])];
    let cards = list_cards(vec![], Some(PROC), &listings);
    let got: Vec<(&str, &str, &str)> = cards.iter().map(triple).collect();
    assert_eq!(got, vec![("plughw:0,0", "HDA-Intel - HDA Intel PCH", "")]);
    let nodes = vec![card("pw:a", "A", "a")];
    assert_eq!(list_cards(nodes, Some(PROC), &listings).len(), 1);
    assert!(list_cards(vec![], None, &vec![]).is_empty());
}

#[test]
fn sources_are_found_by_part_of_their_name() {
    let cards = vec![
        card("plughw:1,0", "USB-Audio - Logitech BRIO", ""),
        card("pw:OpenXLR_stream", "Stream mix (monitor)", "OpenXLR_stream"),
    ];
    let found = |s: &str| resolve_card(&cards, s).map_err(|e| e.message());
    assert_eq!(found("brio").unwrap(), "plughw:1,0");
    assert_eq!(found("OpenXLR_stream").unwrap(), "pw:OpenXLR_stream");
    assert_eq!(found("openxlr stream").unwrap(), "pw:OpenXLR_stream");
    assert_eq!(found("MIX (MON").unwrap(), "pw:OpenXLR_stream");
    assert_eq!(found("").unwrap(), "plughw:1,0");
    assert_eq!(
        found("Wave \"XLR\"").unwrap_err(),
        "no ALSA capture card matching \"Wave \\\"XLR\\\"\""
    );
}

#[test]
fn sources_are_found_by_labels_with_underscores() {
    let cards = vec![card("plughw:0,0", "HDA", ""), card("plughw:2,0", "USB_Mic", "")];
    let found = |s: &str| resolve_card(&cards, s).map_err(|e| e.message());
    assert_eq!(found("USB_Mic").unwrap(), "plughw:2,0");
    assert_eq!(found("usb mic").unwrap(), "plughw:2,0");
    assert_eq!(found("USB_").unwrap(), "plughw:2,0");
    assert!(found("usbmic").is_err());
}

#[test]
fn devices_lead_back_to_their_nodes() {
    assert!(matches!(route("pw:mix_1"), Route::PipeWire(t) if t == "mix_1"));
    assert!(matches!(route("pw:"), Route::PipeWire(t) if t.is_empty()));
    assert!(matches!(route("plughw:0,0"), Route::Alsa));
    assert!(matches!(route("xpw:mix"), Route::Alsa));
}

#[test]
fn the_recorder_gets_its_arguments() {
    assert_eq!(
        pw_cat_args("mix", 44_100, 2),
        ["-r", "--target", "mix", "--rate", "44100", "--channels", "2", "--format", "s16", "-"]
    );
}
