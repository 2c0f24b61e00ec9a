//! Task, queue, scheduler, modulator and audio-driver tests.

use aprs_beacon::audio::{AudioOut, AudioSource, BUF_LEN};
use aprs_beacon::beacon::BeaconTask;
use aprs_beacon::display::{SharpDisplay, BLACK, HEIGHT, LINE_PACKET_LEN};
use aprs_beacon::gps::GpsTask;
use aprs_beacon::modem::{phase_step, AfskModulator, ModemAction, SINE_TABLE_LEN};
use aprs_beacon::queue::ByteQueue;
use aprs_beacon::sched::{Scheduler, Task, Tickable};
use aprs_beacon::shared::Shared;

#[test]
fn byte_queue_is_fifo_and_drops_on_overflow() {
    let mut q = ByteQueue::new(2);
    assert!(q.is_empty());
    assert!(q.enqueue(1));
    assert!(q.enqueue(2));
    assert!(!q.enqueue(3));
    assert_eq!(q.len(), 2);
    assert_eq!(q.dequeue(), Some(1));
    assert_eq!(q.dequeue(), Some(2));
    assert_eq!(q.dequeue(), None);
}

fn feed(shared: &mut Shared, bytes: &[u8]) {
    for &b in bytes {
        shared.rx.enqueue(b);
    }
}

#[test]
fn gps_task_reassembles_lines() {
    let mut shared = Shared::new();
    let mut gps = GpsTask::new();
    feed(&mut shared, b"$GPGGA,a\r\n$GPR");
    gps.run(0, &mut shared);
    assert_eq!(shared.nmea_lines.len(), 1);
    assert_eq!(shared.nmea_lines[0], b"$GPGGA,a".to_vec());
    assert_eq!(shared.rx.len(), 0);
    // The partial line is kept across ticks.
    feed(&mut shared, b"MC,b\n");
    gps.run(1000, &mut shared);
    assert_eq!(shared.nmea_lines.len(), 2);
    assert_eq!(shared.nmea_lines[1], b"$GPRMC,b".to_vec());
    assert_eq!(gps.next_run_at(), 2000);
}

#[test]
fn gps_task_abandons_over_long_lines() {
    let mut shared = Shared::new();
    let mut gps = GpsTask::new();
    let long = vec![b'x'; 150];
    feed(&mut shared, &long);
    feed(&mut shared, b"tail\n$GPGGA,ok\n");
    gps.run(0, &mut shared);
    // The over-long line is dropped up to its newline; the next line
    // survives.
    assert_eq!(shared.nmea_lines.len(), 1);
    assert_eq!(shared.nmea_lines[0], b"$GPGGA,ok".to_vec());
}

#[test]
fn beacon_schedule_follows_fix_availability() {
    let mut shared = Shared::new();
    let mut beacon = BeaconTask::new();
    assert_eq!(beacon.next_run_at(), 0);

    // No fix at t=0: retry in five seconds.
    beacon.run(0, &mut shared);
    assert_eq!(beacon.next_run_at(), 5_000);
    assert_eq!(shared.txq.len(), 0);

    // Fix with only a latitude at t=5000: retry in one second.
    shared.fix.has_fix = true;
    shared.fix.latitude = Some(49_058_334);
    beacon.run(5_000, &mut shared);
    assert_eq!(beacon.next_run_at(), 6_000);
    assert_eq!(shared.txq.len(), 0);

    // Full fix at t=6000 with an empty queue: the frame is pushed and the
    // next beacon is one period away.
    shared.fix.longitude = Some(-72_029_167);
    beacon.run(6_000, &mut shared);
    assert_eq!(beacon.next_run_at(), 6_000 + 1_800_000);
    assert_eq!(shared.txq.len(), 1);
    assert_eq!(shared.pos_rpt.latitude.microdegrees, 49_058_334);
    assert_eq!(shared.pos_rpt.longitude.microdegrees, -72_029_167);
}

#[test]
fn beacon_applies_back_pressure_when_queue_full() {
    let mut shared = Shared::new();
    let mut beacon = BeaconTask::new();
    shared.fix.has_fix = true;
    shared.fix.latitude = Some(1_000_000);
    shared.fix.longitude = Some(2_000_000);
    beacon.run(0, &mut shared);
    beacon.run(10, &mut shared);
    assert_eq!(shared.txq.len(), 2);
    // The queue is full now: the next attempt backs off one second.
    beacon.run(20, &mut shared);
    assert_eq!(shared.txq.len(), 2);
    assert_eq!(beacon.next_run_at(), 20 + 1_000);
}

#[test]
fn scheduler_ticks_exactly_the_due_tasks() {
    let mut shared = Shared::new();
    let tasks = vec![
        Task::Gps(GpsTask::new()),
        Task::Beacon(BeaconTask::new()),
        Task::Modem(AfskModulator::new()),
    ];
    let mut sched = Scheduler::new(tasks);
    // All tasks start due at zero; after one round none is still due.
    sched.run(0, &mut shared);
    // A quiet round in between changes nothing: nothing is due yet.
    sched.run(50, &mut shared);
    sched.run(100, &mut shared);
    assert_eq!(shared.txq.len(), 0);
}

#[test]
fn phase_steps_match_the_dds_formula() {
    // freq * 512 * 2^16 / 8000, truncated.
    assert_eq!(phase_step(1200), 5_033_164);
    assert_eq!(phase_step(2200), 9_227_468);
    // About 8000/1200 = 6.67 samples per full table cycle at the mark
    // tone: six steps stay short of one cycle, seven wrap it.
    let cycle: u64 = 512 * 65_536;
    assert!(6 * (phase_step(1200) as u64) < cycle);
    assert!(7 * (phase_step(1200) as u64) >= cycle);
}

#[test]
fn modem_decides_between_transmit_and_idle() {
    let mut shared = Shared::new();
    let mut modem = AfskModulator::new();
    assert!(matches!(modem.run(0, &mut shared), ModemAction::Idle));
    assert_eq!(modem.next_run_at(), 100);

    // Queue one frame: the modem asks for a transmission.
    let frame = [0x12u8, 0x34];
    let bits = aprs_beacon::hdlc::build_on_air(&frame).unwrap();
    shared.txq.push_back(bits);
    assert!(matches!(modem.run(200, &mut shared), ModemAction::Transmit));
    assert_eq!(modem.next_run_at(), 201);
}

#[test]
fn modem_fills_buffers_from_the_sine_table() {
    let mut shared = Shared::new();
    let mut modem = AfskModulator::new();
    let frame = [0x55u8; 8];
    let bits = aprs_beacon::hdlc::build_on_air(&frame).unwrap();
    shared.txq.push_back(bits);
    assert!(modem.load_next(&mut shared));
    assert_eq!(shared.txq.len(), 0);

    // A table holding its own indices exposes which entry each sample
    // selected.
    let table: Vec<u32> = (0..SINE_TABLE_LEN as u32).collect();
    let mut buf = vec![0u32; BUF_LEN];
    let still_active = modem.fill_one_buffer(&table, &mut buf);
    assert!(still_active);
    // The synthesized phase advances every sample: consecutive samples
    // never repeat the same table entry for these tone steps.
    for pair in buf.windows(2) {
        assert_ne!(pair[0], pair[1]);
    }
    assert!(buf.iter().all(|&s| (s as usize) < SINE_TABLE_LEN));
}

#[test]
fn dma_completion_keys_ptt_only_for_filled_buffers() {
    let mut audio = AudioOut::new();
    assert!(!audio.is_busy());
    assert!(!audio.ptt());
    assert!(matches!(audio.source(), AudioSource::Silence));

    // Fill and queue a buffer: the next completion attaches it and keys
    // PTT.
    {
        let buf = audio.get_free_buffer();
        for s in buf.iter_mut() {
            *s = 0x1234_1234;
        }
    }
    audio.queue_filled();
    assert!(audio.is_busy());
    audio.on_dma_complete();
    assert!(audio.ptt());
    assert!(matches!(audio.source(), AudioSource::Ping));
    assert!(!audio.is_busy());

    // Nothing queued: the next completion falls back to silence and
    // releases PTT.
    audio.on_dma_complete();
    assert!(!audio.ptt());
    assert!(matches!(audio.source(), AudioSource::Silence));
}

#[test]
fn display_flush_emits_dirty_lines_and_toggles_vcom() {
    let mut display = SharpDisplay::new();
    let first = display.flush();
    // VCOM high plus write command, every line packet, trailing pad.
    assert_eq!(first[0], 0xC0);
    assert_eq!(first.len(), 1 + HEIGHT * LINE_PACKET_LEN + 1);
    assert_eq!(*first.last().unwrap(), 0x00);

    // Nothing dirty: only the command and pad bytes, VCOM now low.
    let second = display.flush();
    assert_eq!(second, vec![0x80, 0x00]);

    // One pixel: exactly one line packet goes out again.
    display.draw_pixel(0, 0, BLACK);
    let third = display.flush();
    assert_eq!(third.len(), 1 + LINE_PACKET_LEN + 1);
    assert_eq!(third[0], 0xC0);
    // Line 239 carries its bit-reversed one-based number, and the touched
    // byte lost the pixel's bit.
    assert_eq!(third[1], 0x0F);
    assert_eq!(third[1 + LINE_PACKET_LEN - 2], 0xFE);
}

#[test]
fn due_tasks_are_ticked_within_one_round() {
    let mut shared = Shared::new();
    let gps = GpsTask::new();
    let beacon = BeaconTask::new();
    let mut sched = Scheduler::new(vec![Task::Gps(gps), Task::Beacon(beacon)]);
    shared.rx.enqueue(b'x');
    shared.rx.enqueue(b'\n');
    sched.run(0, &mut shared);
    // The GPS task ran (its line arrived) and the beacon ran (it saw no
    // fix; nothing queued).
    assert_eq!(shared.nmea_lines.len(), 1);
    assert_eq!(shared.txq.len(), 0);
}
