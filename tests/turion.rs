use turion_source::drive::{after_poll, after_record_io};
use turion_source::{
    IoOutcome, TickAction,
    BambuSample, CameraCmdFrameHeader, CameraCmdPacket, LocalSettings, LocalSettingsParsingError,
    LocalTunnel, LocalTunnelError, TransportError,
};

const URL: &str = "bambu:///local/127.0.0.1.?port=1234&user=elysia&passwd=ego";

#[test]
fn test_basic() {
    let local_settings =
        LocalSettings::from_url("bambu:///local/127.0.0.1.?port=1234&user=elysia&passwd=ego")
            .unwrap();
    assert_eq!(local_settings.hostname, "127.0.0.1");
    assert_eq!(local_settings.port, 1234);
    assert_eq!(local_settings.username, "elysia");
    assert_eq!(local_settings.password, "ego");
}

#[test]
fn optional_fields_are_kept() {
    let s = LocalSettings::from_url(
        "bambu:///local/printer.lan.?user=u&passwd=p&port=+6000&device=SER1&net_ver=1.2&dev_ver=3&cli_id=abc&cli_ver=0.9",
    )
    .unwrap();
    assert_eq!(s.hostname, "printer.lan");
    assert_eq!(s.port, 6000);
    assert_eq!(s.serial.as_deref(), Some("SER1"));
    assert_eq!(s.net_ver.as_deref(), Some("1.2"));
    assert_eq!(s.dev_ver.as_deref(), Some("3"));
    assert_eq!(s.cli_id.as_deref(), Some("abc"));
    assert_eq!(s.cli_ver.as_deref(), Some("0.9"));
}

#[test]
fn values_are_verbatim_and_last_wins() {
    let s = LocalSettings::from_url(
        "bambu:///local/h.?user=a%20b&passwd=x=y&port=1&user=second&port=65535",
    )
    .unwrap();
    assert_eq!(s.username, "second");
    assert_eq!(s.password, "x=y");
    assert_eq!(s.port, 65535);
    assert_eq!(s.serial, None);
}

#[test]
fn unknown_keys_are_ignored() {
    let s = LocalSettings::from_url(
        "bambu:///local/10.0.0.2.?foo=bar&port=990&user=bblp&zzz=&passwd=secret&x=1",
    )
    .unwrap();
    assert_eq!(s.hostname, "10.0.0.2");
    assert_eq!(s.port, 990);
    assert_eq!(s.username, "bblp");
    assert_eq!(s.password, "secret");
}

#[test]
fn missing_mandatory_keys_are_errors() {
    assert_eq!(
        LocalSettings::from_url("bambu:///local/h.?port=1&passwd=p").unwrap_err(),
        LocalSettingsParsingError::MissingUser
    );
    assert_eq!(
        LocalSettings::from_url("bambu:///local/h.?port=1&user=u").unwrap_err(),
        LocalSettingsParsingError::MissingPassword
    );
    assert_eq!(
        LocalSettings::from_url("bambu:///local/h.?user=u&passwd=p").unwrap_err(),
        LocalSettingsParsingError::MissingPort
    );
}

#[test]
fn malformed_descriptors_are_errors() {
    assert_eq!(
        LocalSettings::from_url("bambu:///remote/h.?port=1&user=u&passwd=p").unwrap_err(),
        LocalSettingsParsingError::InvalidSchema
    );
    assert_eq!(
        LocalSettings::from_url("bambu:///local/h?port=1&user=u&passwd=p").unwrap_err(),
        LocalSettingsParsingError::InvalidUrl
    );
    assert_eq!(
        LocalSettings::from_url("bambu:///local/h.?port=1&user&passwd=p").unwrap_err(),
        LocalSettingsParsingError::MalformedParameter
    );
    assert_eq!(
        LocalSettings::from_url("bambu:///local/h.?port=65536&user=u&passwd=p").unwrap_err(),
        LocalSettingsParsingError::InvalidPort
    );
    assert_eq!(
        LocalSettings::from_url("bambu:///local/h.?port=12a&user=u&passwd=p").unwrap_err(),
        LocalSettingsParsingError::InvalidPort
    );
    assert_eq!(
        LocalSettings::from_url("bambu:///local/h.?port=&user=u&passwd=p").unwrap_err(),
        LocalSettingsParsingError::InvalidPort
    );
    assert_eq!(LocalSettings::from_url("").unwrap_err(), LocalSettingsParsingError::InvalidSchema);
}

#[test]
fn start_packet_layout() {
    let p = CameraCmdPacket::new(0x3000, "elysia", "ego", true);
    assert_eq!(p.cmd[0] & 0x40, 0x40);
    assert_eq!(p.cmd[1], 0x3000);
    assert_eq!(p.cmd[2], 0);
    assert_eq!(p.cmd[3], 0);
    assert_eq!(&p.user[..6], b"elysia");
    assert!(p.user[6..].iter().all(|b| *b == 0));
    assert_eq!(&p.pass[..3], b"ego");
    assert!(p.pass[3..].iter().all(|b| *b == 0));
}

#[test]
fn stop_packet_and_wire_bytes() {
    let p = CameraCmdPacket::new(0x3000, "elysia", "ego", false);
    assert_eq!(p.cmd[0], 0);
    let bytes = p.as_bytes();
    assert_eq!(bytes.len(), 80);
    assert_eq!(&bytes[0..8], &[0, 0, 0, 0, 0x00, 0x30, 0, 0]);
    assert_eq!(&bytes[16..22], b"elysia");
    assert_eq!(&bytes[48..51], b"ego");
    let s = CameraCmdPacket::new(-1, "", "", true).as_bytes();
    assert_eq!(&s[0..8], &[0x40, 0, 0, 0, 0xff, 0xff, 0xff, 0xff]);
}

#[test]
fn long_credentials_are_cut() {
    let long = "abcdefghijklmnopqrstuvwxyz0123456789";
    let p = CameraCmdPacket::new(1, long, "p", true);
    assert_eq!(&p.user[..], &long.as_bytes()[..32]);
}

#[test]
fn frame_header_decoding() {
    let raw = [
        0x10, 0x27, 0, 0, 0xff, 0xff, 0xff, 0xff, 2, 0, 0, 0, 9, 9, 9, 9,
    ];
    let h = CameraCmdFrameHeader::from_bytes(raw);
    assert_eq!(h.frame_len, 10000);
    assert_eq!(h.itrack, -1);
    assert_eq!(h.flags, 2);
    let g = CameraCmdFrameHeader::from(raw);
    assert_eq!(g.frame_len, 10000);
}

fn header_bytes(len: u32, itrack: i32, flags: i32) -> Vec<u8> {
    let mut v = Vec::new();
    v.extend_from_slice(&len.to_le_bytes());
    v.extend_from_slice(&itrack.to_le_bytes());
    v.extend_from_slice(&flags.to_le_bytes());
    v.extend_from_slice(&[0, 0, 0, 0]);
    v
}

fn started_tunnel() -> LocalTunnel {
    let mut t = LocalTunnel::new(LocalSettings::from_url(URL).unwrap());
    t.check_open().unwrap();
    t.open(Ok(())).unwrap();
    t.start_packet(0x3000).unwrap();
    t.start(0x3000, Ok(())).unwrap();
    t
}

#[test]
fn control_before_open_fails() {
    let mut t = LocalTunnel::new(LocalSettings::from_url(URL).unwrap());
    assert_eq!(t.start_packet(0x3000).unwrap_err(), LocalTunnelError::NotOpened);
    assert_eq!(t.close_packet().unwrap_err(), LocalTunnelError::NotOpened);
    assert_eq!(t.start(0x3000, Ok(())).unwrap_err(), LocalTunnelError::NotOpened);
    assert_eq!(t.close(Ok(())).unwrap_err(), LocalTunnelError::NotOpened);
    assert!(!t.needs_tick());
}

#[test]
fn sequencing_after_open() {
    let mut t = LocalTunnel::new(LocalSettings::from_url(URL).unwrap());
    assert_eq!(
        t.open(Err(TransportError::Handshake)).unwrap_err(),
        LocalTunnelError::Transport(TransportError::Handshake)
    );
    t.open(Ok(())).unwrap();
    assert_eq!(t.check_open().unwrap_err(), LocalTunnelError::AlreadyOpened);
    assert_eq!(t.open(Ok(())).unwrap_err(), LocalTunnelError::AlreadyOpened);
    assert_eq!(t.close_packet().unwrap_err(), LocalTunnelError::NotStarted);
    assert_eq!(
        t.start(7, Err(TransportError::Io)).unwrap_err(),
        LocalTunnelError::Transport(TransportError::Io)
    );
    t.start(7, Ok(())).unwrap();
    assert_eq!(t.start_packet(7).unwrap_err(), LocalTunnelError::AlreadyStarted);
    let stop = t.close_packet().unwrap();
    assert_eq!(stop.cmd[0], 0);
    assert_eq!(stop.cmd[1], 7);
    assert_eq!(&stop.user[..6], b"elysia");
    t.close(Ok(())).unwrap();
    assert_eq!(t.close(Ok(())).unwrap_err(), LocalTunnelError::NotStarted);
}

#[test]
fn read_before_start_fails() {
    let mut t = LocalTunnel::new(LocalSettings::from_url(URL).unwrap());
    let mut s = BambuSample::empty();
    assert_eq!(t.read_sample(&mut s, Ok(Vec::new())).unwrap_err(), LocalTunnelError::NotOpened);
    t.open(Ok(())).unwrap();
    assert_eq!(t.read_sample(&mut s, Ok(Vec::new())).unwrap_err(), LocalTunnelError::NotStarted);
}

fn poll_one(t: &mut LocalTunnel, s: &mut BambuSample, feed: &mut Vec<Vec<u8>>) -> (usize, bool) {
    let mut retries = 0;
    for _ in 0..100 {
        let received = if t.needs_tick() {
            if feed.is_empty() { Ok(Vec::new()) } else { Ok(feed.remove(0)) }
        } else {
            Ok(Vec::new())
        };
        match t.read_sample(s, received) {
            Ok(()) => return (retries, true),
            Err(e) => {
                assert!(e.is_retryable(), "hard error {:?}", e);
                retries += 1;
            }
        }
    }
    (retries, false)
}

#[test]
fn one_frame_is_delivered_whole() {
    let mut t = started_tunnel();
    let mut s = BambuSample::empty();
    let body: Vec<u8> = (0..10000u32).map(|i| (i % 251) as u8).collect();
    let mut stream = header_bytes(10000, 3, 5);
    stream.extend_from_slice(&body);
    let mut feed: Vec<Vec<u8>> = stream.chunks(777).map(|c| c.to_vec()).collect();
    let (retries, done) = poll_one(&mut t, &mut s, &mut feed);
    assert!(done);
    assert!(retries >= 2);
    assert_eq!(s.size, 10000);
    assert_eq!(s.buffer, body);
    assert_eq!(s.buffer.capacity(), s.buffer.len());
    assert_eq!(s.itrack, 3);
    assert_eq!(s.flags, 5);
    assert_eq!(s.decode_time, 0);
}

#[test]
fn three_calls_for_one_tick_frame() {
    let mut t = started_tunnel();
    let mut s = BambuSample::empty();
    let mut stream = header_bytes(4, 0, 0);
    stream.extend_from_slice(&[1, 2, 3, 4]);
    assert_eq!(t.read_sample(&mut s, Ok(stream)).unwrap_err(), LocalTunnelError::WouldBlock);
    assert_eq!(t.read_sample(&mut s, Ok(Vec::new())).unwrap_err(), LocalTunnelError::WouldBlock);
    assert!(!t.needs_tick());
    t.read_sample(&mut s, Ok(Vec::new())).unwrap();
    assert_eq!(s.buffer, vec![1, 2, 3, 4]);
    assert_eq!(s.size, 4);
}

#[test]
fn empty_frame_is_delivered() {
    let mut t = started_tunnel();
    let mut s = BambuSample::empty();
    assert_eq!(
        t.read_sample(&mut s, Ok(header_bytes(0, 1, 2))).unwrap_err(),
        LocalTunnelError::WouldBlock
    );
    t.read_sample(&mut s, Ok(Vec::new())).unwrap();
    assert_eq!(s.size, 0);
    assert_eq!(s.buffer.len(), 0);
    assert_eq!(s.buffer.capacity(), s.buffer.len());
    assert_eq!(s.itrack, 1);
    assert_eq!(s.flags, 2);
}

#[test]
fn next_read_releases_previous_sample() {
    let mut t = started_tunnel();
    let mut s = BambuSample::empty();
    let mut stream = header_bytes(3, 0, 0);
    stream.extend_from_slice(&[7, 8, 9]);
    stream.extend_from_slice(&header_bytes(2, 0, 0));
    stream.extend_from_slice(&[5, 6]);
    let mut feed = vec![stream];
    assert!(poll_one(&mut t, &mut s, &mut feed).1);
    assert_eq!(s.buffer, vec![7, 8, 9]);
    // the next call releases the first buffer before anything else
    assert_eq!(t.read_sample(&mut s, Ok(Vec::new())).unwrap_err(), LocalTunnelError::WouldBlock);
    assert_eq!(s.size, 0);
    assert!(s.buffer.is_empty());
    assert!(poll_one(&mut t, &mut s, &mut feed).1);
    assert_eq!(s.buffer, vec![5, 6]);
}

#[test]
fn first_read_clears_the_sample() {
    let mut t = started_tunnel();
    let mut s = BambuSample { itrack: 9, size: 3, flags: 9, buffer: vec![1, 2, 3], decode_time: 4 };
    assert_eq!(t.read_sample(&mut s, Ok(Vec::new())).unwrap_err(), LocalTunnelError::WouldBlock);
    assert_eq!(s.itrack, 0);
    assert_eq!(s.flags, 0);
    assert_eq!(s.size, 0);
    assert_eq!(s.decode_time, 0);
}

#[test]
fn transport_failure_is_fatal() {
    let mut t = started_tunnel();
    let mut s = BambuSample::empty();
    let e = t.read_sample(&mut s, Err(TransportError::Io)).unwrap_err();
    assert_eq!(e, LocalTunnelError::Transport(TransportError::Io));
    assert!(!e.is_retryable());
}

#[test]
fn large_declared_length_is_accepted() {
    let mut t = started_tunnel();
    let mut s = BambuSample::empty();
    assert_eq!(
        t.read_sample(&mut s, Ok(header_bytes(0x8000_0000, 0, 0))).unwrap_err(),
        LocalTunnelError::WouldBlock
    );
    assert!(t.needs_tick());
    assert_eq!(t.read_sample(&mut s, Ok(vec![1, 2, 3])).unwrap_err(), LocalTunnelError::WouldBlock);
    assert!(t.needs_tick());
}

#[test]
fn releasing_an_empty_sample_leaves_it() {
    let mut s = BambuSample { itrack: 1, size: 0, flags: 2, buffer: vec![9], decode_time: 3 };
    s.destroy_buffer();
    assert_eq!(s.buffer, vec![9]);
    assert_eq!((s.itrack, s.size, s.flags, s.decode_time), (1, 0, 2, 3));
    let mut f = BambuSample { itrack: 1, size: 1, flags: 2, buffer: vec![9], decode_time: 3 };
    f.destroy_buffer();
    assert!(f.buffer.is_empty());
    assert_eq!((f.itrack, f.size, f.flags, f.decode_time), (1, 0, 2, 3));
}

#[test]
fn partial_header_waits() {
    let mut t = started_tunnel();
    let mut s = BambuSample::empty();
    let h = header_bytes(1, 0, 0);
    assert_eq!(t.read_sample(&mut s, Ok(h[..10].to_vec())).unwrap_err(), LocalTunnelError::WouldBlock);
    assert!(t.needs_tick());
    assert_eq!(t.read_sample(&mut s, Ok(h[10..].to_vec())).unwrap_err(), LocalTunnelError::WouldBlock);
    assert_eq!(t.read_sample(&mut s, Ok(vec![42])).unwrap_err(), LocalTunnelError::WouldBlock);
    t.read_sample(&mut s, Ok(Vec::new())).unwrap();
    assert_eq!(s.buffer, vec![42]);
}

#[test]
fn error_messages() {
    assert_eq!(LocalTunnelError::NotStarted.message(), "stream not started");
    assert_eq!(LocalSettingsParsingError::InvalidSchema.message(), "Invalid schema");
}

#[test]
fn readiness_loop_decisions() {
    assert_eq!(after_poll(IoOutcome::Done, false), TickAction::Proceed);
    assert_eq!(after_poll(IoOutcome::Interrupted, true), TickAction::Retry);
    assert_eq!(after_poll(IoOutcome::Interrupted, false), TickAction::NoData);
    assert_eq!(after_poll(IoOutcome::Failed, true), TickAction::Fail);
    assert_eq!(after_record_io(IoOutcome::WouldBlock, true), TickAction::Retry);
    assert_eq!(after_record_io(IoOutcome::WouldBlock, false), TickAction::NoData);
    assert_eq!(after_record_io(IoOutcome::Done, true), TickAction::Proceed);
    assert_eq!(after_record_io(IoOutcome::Interrupted, true), TickAction::Fail);
}

#[test]
fn bytes_handed_in_without_a_tick_are_kept() {
    let mut t = started_tunnel();
    let mut s = BambuSample::empty();
    let mut stream = header_bytes(2, 0, 0);
    stream.extend_from_slice(&[1, 2]);
    assert_eq!(t.read_sample(&mut s, Ok(stream)).unwrap_err(), LocalTunnelError::WouldBlock);
    assert_eq!(t.read_sample(&mut s, Ok(Vec::new())).unwrap_err(), LocalTunnelError::WouldBlock);
    assert!(!t.needs_tick());
    let mut next = header_bytes(1, 0, 0);
    next.push(7);
    t.read_sample(&mut s, Ok(next)).unwrap();
    assert_eq!(s.buffer, vec![1, 2]);
    assert_eq!(t.read_sample(&mut s, Ok(Vec::new())).unwrap_err(), LocalTunnelError::WouldBlock);
    assert_eq!(t.read_sample(&mut s, Ok(Vec::new())).unwrap_err(), LocalTunnelError::WouldBlock);
    t.read_sample(&mut s, Ok(Vec::new())).unwrap();
    assert_eq!(s.buffer, vec![7]);
}
