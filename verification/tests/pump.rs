use lancam::pump::{
    alsa_patience, fill_start, read_exact_or_eof, reader_patience, samples_le, FillStep, Patience,
    Pump, PumpAction, PumpEvent, ReadEvent, BLOCK_FRAMES,
};

fn delivered(action: PumpAction) -> Vec<Vec<f32>> {
    match action {
        PumpAction::Deliver(blocks) => blocks
            .into_iter()
            .map(|b| b.into_iter().map(|s| f32::from_bits(s.bits)).collect())
            .collect(),
        other => panic!("{other:?}"),
    }
}

#[test]
fn bytes_are_little_endian_samples() {
    assert_eq!(samples_le(&vec![1, 0, 0xff, 0xff, 0, 0x80, 0xff, 0x7f, 9]), [1, -1, -32768, 32767]);
}

#[test]
fn blocks_are_full_and_nothing_is_lost() {
    for channels in [1u32, 2] {
        let want = BLOCK_FRAMES * channels as usize;
        let mut pump = Pump::new(channels, alsa_patience());
        let all: Vec<i16> = (0..5000i32).map(|i| (i * 13 - 30_000) as i16).collect();
        let mut got: Vec<f32> = Vec::new();
        for part in all.chunks(321) {
            for block in delivered(pump.step(PumpEvent::Samples(part.to_vec()))) {
                assert_eq!(block.len(), want);
                got.extend(block);
            }
        }
        assert_eq!(got.len(), all.len() / want * want);
        for (g, s) in got.iter().zip(&all) {
            assert_eq!(*g, *s as f32 / 32768.0);
        }
    }
}

#[test]
fn several_blocks_can_come_at_once() {
    let mut pump = Pump::new(1, reader_patience());
    let blocks = delivered(pump.step(PumpEvent::Samples(vec![-32768; 3 * BLOCK_FRAMES + 5])));
    assert_eq!(blocks.len(), 3);
    assert!(blocks.iter().flatten().all(|s| *s == -1.0));
    let blocks = delivered(pump.step(PumpEvent::Samples(vec![0; BLOCK_FRAMES - 5])));
    assert_eq!(blocks.len(), 1);
    assert_eq!(&blocks[0][..6], &[-1.0, -1.0, -1.0, -1.0, -1.0, 0.0]);
}

fn errors(patience: Patience, complain_at: u32, give_up: u32, pause: u64) {
    let mut pump = Pump::new(2, patience);
    for i in 1..=give_up {
        match pump.step(PumpEvent::Failed) {
            PumpAction::Pause { ms, complain } => {
                assert_eq!(ms, pause);
                assert_eq!(complain, i == complain_at, "{i}");
            }
            other => panic!("{i}: {other:?}"),
        }
    }
    assert!(matches!(pump.step(PumpEvent::Failed), PumpAction::GiveUp));
}

#[test]
fn patience_ends() {
    errors(alsa_patience(), 200, 400, 5);
    errors(reader_patience(), 20, 100, 10);
}

#[test]
fn samples_restore_patience() {
    let mut pump = Pump::new(2, reader_patience());
    for _ in 0..100 {
        pump.step(PumpEvent::Failed);
    }
    delivered(pump.step(PumpEvent::Samples(vec![0; 2])));
    assert!(matches!(pump.step(PumpEvent::Failed), PumpAction::Pause { ms: 10, complain: false }));
}

#[test]
fn waiting_and_ending() {
    let mut pump = Pump::new(2, alsa_patience());
    assert!(matches!(pump.step(PumpEvent::Nothing), PumpAction::Pause { ms: 5, complain: false }));
    assert!(matches!(pump.step(PumpEvent::End), PumpAction::Finish));
}

#[test]
fn buffers_fill_or_end() {
    assert_eq!(fill_start(0), FillStep::Full);
    assert_eq!(fill_start(8), FillStep::ReadFrom(0));
    assert_eq!(read_exact_or_eof(0, 8, ReadEvent::Bytes(3)), FillStep::ReadFrom(3));
    assert_eq!(read_exact_or_eof(3, 8, ReadEvent::Interrupted), FillStep::ReadFrom(3));
    assert_eq!(read_exact_or_eof(3, 8, ReadEvent::Bytes(5)), FillStep::Full);
    assert_eq!(read_exact_or_eof(3, 8, ReadEvent::Bytes(0)), FillStep::Ended);
    assert_eq!(read_exact_or_eof(3, 8, ReadEvent::Failed), FillStep::Failed);
}
