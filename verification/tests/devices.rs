//! mDNS, the activity LED, the station and random numbers.

use espcan_br::config::DeviceConfig;
use espcan_br::led::{
    codes, level_from_count, pulses, Activity, ActivityLed, Code, Pulse, Rgb, Sent, Window,
    LED_BUCKETS, STATUS_BLUE, T0H, T0L, T1H, T1L,
};
use espcan_br::mdns::{build_announcement, build_response, host_label, responder_address};
use espcan_br::rng::{fill_bytes, join_words, words_for};
use espcan_br::station::{next_step, StationEvent, StationStep, RETRY_MS};

const IP: [u8; 4] = [192, 168, 1, 20];

fn query(name: &[&[u8]], qtype: u16, qclass: u16) -> Vec<u8> {
    let mut q = vec![0xab, 0xcd, 0, 0, 0, 1, 0, 0, 0, 0, 0, 0];
    for label in name {
        q.push(label.len() as u8);
        q.extend_from_slice(label);
    }
    q.push(0);
    q.extend_from_slice(&qtype.to_be_bytes());
    q.extend_from_slice(&qclass.to_be_bytes());
    q
}

fn answers(q: &[u8]) -> bool {
    build_response(q, &IP, b"espcan-br").is_some()
}

#[test]
fn announcement_bytes() {
    let a = build_announcement(&IP, b"dev").unwrap();
    assert_eq!(
        a.as_slice(),
        &[
            0, 0, 0x84, 0, 0, 0, 0, 1, 0, 0, 0, 0, 3, b'd', b'e', b'v', 5, b'l', b'o', b'c', b'a', b'l', 0, 0, 1, 0x80,
            1, 0, 0, 0, 0x78, 0, 4, 192, 168, 1, 20
        ][..]
    );
}

#[test]
fn announcement_has_to_fit() {
    let a = build_announcement(&IP, &[b'x'; 478]).unwrap();
    assert_eq!(a.len(), 512);
    assert_eq!(a[12], (478 % 256) as u8);
    assert!(build_announcement(&IP, &[b'x'; 479]).is_none());
    assert!(build_announcement(&IP, &[b'x'; 2000]).is_none());
}

#[test]
fn matching_queries_are_answered() {
    let q = query(&[b"ESPcan-BR", b"Local"], 1, 1);
    let r = build_response(&q, &IP, b"espcan-br").unwrap();
    assert_eq!(&r[..4], &[0xab, 0xcd, 0x84, 0]);
    assert_eq!(&r[2..], &build_announcement(&IP, b"espcan-br").unwrap()[2..]);
    assert!(answers(&query(&[b"espcan-br", b"local"], 255, 0x8001)));
}

#[test]
fn other_queries_are_ignored() {
    let good = query(&[b"espcan-br", b"local"], 1, 1);
    assert!(answers(&good));
    assert!(!answers(&query(&[b"espcan-bs", b"local"], 1, 1)));
    assert!(!answers(&query(&[b"espcan-br"], 1, 1)));
    assert!(!answers(&query(&[b"espcan-br", b"local", b"x"], 1, 1)));
    assert!(!answers(&query(&[b"espcan-br", b"local"], 28, 1)));
    assert!(!answers(&query(&[b"espcan-br", b"local"], 1, 3)));
    assert!(!answers(&good[..good.len() - 1]));
    assert!(!answers(&good[..11]));
    let mut response = good.clone();
    response[2] = 0x84;
    assert!(!answers(&response));
    let mut empty = good.clone();
    empty[5] = 0;
    assert!(!answers(&empty));
    let mut compressed = good.clone();
    compressed[12] = 0xc0;
    assert!(!answers(&compressed));
    let mut long = good.clone();
    long[12] = 60;
    assert!(!answers(&long));
    assert!(!answers(&build_announcement(&IP, b"espcan-br").unwrap()));
}

#[test]
fn responder_takes_its_name_and_address() {
    let mut d = DeviceConfig::defaults();
    assert_eq!(host_label(&d), b"espcan-br");
    d.set(&"n".repeat(40), 1);
    assert_eq!(host_label(&d), vec![b'n'; 32]);
    assert_eq!(responder_address(true, Some(IP)), Some(IP));
    assert_eq!(responder_address(true, None), None);
    assert_eq!(responder_address(false, Some(IP)), None);
}

#[test]
fn brightness_levels() {
    assert_eq!(level_from_count(0), 0);
    assert_eq!(level_from_count(1), 5);
    assert_eq!(level_from_count(10), 16);
    assert_eq!(level_from_count(25), 34);
    assert_eq!(level_from_count(49), 62);
    assert_eq!(level_from_count(50), 64);
    assert_eq!(level_from_count(u32::MAX), 64);
    for n in 1..100 {
        assert!(level_from_count(n) <= level_from_count(n + 1));
    }
}

#[test]
fn colours_are_sent_green_first() {
    let p = pulses(0x01, 0x80, 0xff);
    assert_eq!(p.len(), 24);
    for (i, x) in p.iter().enumerate() {
        let one = i == 0 || i == 15 || i >= 16;
        assert_eq!((x.high, x.low), if one { (T1H, T1L) } else { (T0H, T0L) }, "{}", i);
    }
    assert_ne!(pulses(1, 2, 3), pulses(2, 1, 3));
}

#[test]
fn window_counts_one_second() {
    let mut w = Window::new();
    let mut count = 0u32;
    for i in 0..25usize {
        count += 2;
        let n = w.tick(i % LED_BUCKETS, count);
        assert_eq!(n, 2 * (i as u32 + 1).min(10));
    }
    let mut w = Window::new();
    w.last = u32::MAX;
    assert_eq!(w.tick(0, 3), 4);
}

#[test]
fn led_follows_traffic_and_state() {
    let mut a = Activity::new();
    assert_eq!(a.tick(50, 0, 0, true), Rgb { r: 0, g: 64, b: STATUS_BLUE });
    assert_eq!(a.tick(50, 1, 0, true), Rgb { r: 5, g: 64, b: 0 });
    assert_eq!(a.tick(50, 1, 1, true), Rgb { r: 5, g: 64, b: STATUS_BLUE });
    assert_eq!(a.tick(50, 1, 0, false), Rgb { r: 5, g: 64, b: 0 });
    for _ in 4..10 {
        assert_eq!(a.tick(50, 1, 0, false).g, 64);
    }
    assert_eq!(a.tick(50, 1, 2, true), Rgb { r: 5, g: 0, b: 0 });
    assert_eq!(a.tick(50, 1, 2, true), Rgb { r: 0, g: 0, b: STATUS_BLUE });
}

#[test]
fn station_reconnects() {
    let mut up = false;
    assert_eq!(next_step(StationEvent::Started(true), &mut up), StationStep::Connect);
    assert_eq!(next_step(StationEvent::Connected(false), &mut up), StationStep::Pause(RETRY_MS));
    assert!(!up);
    assert_eq!(next_step(StationEvent::Waited, &mut up), StationStep::CheckStarted);
    assert_eq!(next_step(StationEvent::Connected(true), &mut up), StationStep::AwaitLoss);
    assert!(up);
    assert_eq!(next_step(StationEvent::Disconnected, &mut up), StationStep::CheckStarted);
    assert!(!up);
    assert_eq!(next_step(StationEvent::Started(false), &mut up), StationStep::Stop);
}

#[test]
fn random_words_become_bytes() {
    assert_eq!(join_words(0x0102_0304, 0x0506_0708), 0x0102_0304_0506_0708);
    assert_eq!(words_for(0), 0);
    assert_eq!(words_for(4), 1);
    assert_eq!(words_for(5), 2);
    let mut d = [0u8; 6];
    fill_bytes(&mut d, &[0x0403_0201, 0xffff_0605]);
    assert_eq!(d, [1, 2, 3, 4, 5, 6]);
}

#[test]
fn transmissions_end_with_the_marker() {
    let c = codes(0x00, 0x80, 0x01);
    assert_eq!(c.len(), 25);
    assert_eq!(c[0], Code::Bit(Pulse { high: 64, low: 36 }));
    assert_eq!(c[1], Code::Bit(Pulse { high: 32, low: 68 }));
    assert_eq!(c[23], Code::Bit(Pulse { high: 64, low: 36 }));
    assert_eq!(c[24], Code::End);
    assert_eq!(c.iter().filter(|x| **x == Code::End).count(), 1);
}

#[test]
fn led_keeps_its_channel() {
    let mut led = ActivityLed::new("rmt0");
    for result in [Sent::Done, Sent::Failed, Sent::Refused] {
        let (ch, out) = led.set_rgb(1, 2, 3).unwrap();
        assert_eq!(ch, "rmt0");
        assert_eq!(out, codes(1, 2, 3));
        assert!(led.set_rgb(4, 5, 6).is_none());
        led.sent(result(ch));
    }
    assert!(led.set_rgb(0, 0, 0).is_some());
}
