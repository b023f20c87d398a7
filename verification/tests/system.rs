use lib::drivers::keyboard::{feed as feed_key, KeyboardState};
use lib::drivers::mouse::{feed as feed_mouse, MouseState};
use lib::drivers::pci::{is_multifunction, probe};
use lib::drivers::rtc::{decode, from_bcd, Raw};
use lib::fs::{normalise, FileSystem};
use lib::gfx::palette::{blend, blue_of, green_of, red_of, rgb, scale};
use lib::input::{dropped_events, pop_key, push_key, EventQueues, Key, KeyEvent, Modifiers};
use lib::mm::format_bytes;
use lib::mm::heap::Heap;

#[test]
fn format_bytes_picks_the_largest_unit() {
    assert_eq!(format_bytes(0), (0, "B"));
    assert_eq!(format_bytes(1023), (1023, "B"));
    assert_eq!(format_bytes(1536), (1, "KiB"));
    assert_eq!(format_bytes(5 * 1024 * 1024), (5, "MiB"));
    assert_eq!(format_bytes(3 * 1024 * 1024 * 1024), (3, "GiB"));
}

#[test]
fn normalise_collapses_slashes_and_dots() {
    assert_eq!(normalise(""), "/");
    assert_eq!(normalise("a//b/"), "/a/b");
    assert_eq!(normalise("/./notes.txt"), "/notes.txt");
    assert_eq!(normalise(&normalise("x//y/./z")), normalise("x//y/./z"));
}

#[test]
fn file_system_reads_back_what_was_written() {
    let mut fs = FileSystem::new();
    assert!(fs.write("/", vec![1]).is_err());
    assert!(fs.write("notes.txt", b"hello".to_vec()).is_ok());
    assert!(fs.file_exists("/notes.txt"));
    assert_eq!(fs.read("//notes.txt").unwrap().data, b"hello".to_vec());
    assert!(fs.append("notes.txt", b" world").is_ok());
    assert_eq!(fs.read("notes.txt").unwrap().data, b"hello world".to_vec());
    assert_eq!(fs.count(), 1);
    assert_eq!(fs.total_bytes(), 11);
    assert!(fs.remove("/notes.txt").is_ok());
    assert!(!fs.file_exists("notes.txt"));
    assert_eq!(fs.remove("/notes.txt"), Err("no such file"));
}

#[test]
fn file_system_lists_in_path_order() {
    let mut fs = FileSystem::new();
    fs.write("/b.txt", vec![1, 2]).unwrap();
    fs.write("/a/inner.txt", vec![3]).unwrap();
    fs.write("/a.txt", vec![]).unwrap();
    let names: Vec<String> = fs.list().into_iter().map(|(name, _, _)| name).collect();
    assert_eq!(names, vec!["/a.txt".to_string(), "/a/inner.txt".to_string(), "/b.txt".to_string()]);
    let inside: Vec<String> = fs.list_dir("a").into_iter().map(|(name, _, _)| name).collect();
    assert_eq!(inside, vec!["/a/inner.txt".to_string()]);
}

#[test]
fn pci_probe_and_describe() {
    assert!(probe(0, 1, 0, 0xFFFF_FFFF, 0).is_none());
    let host = probe(0, 0, 0, 0x1237_8086, 0x0600_0002).unwrap();
    assert_eq!(host.vendor, 0x8086);
    assert_eq!(host.id, 0x1237);
    assert_eq!(host.class, 0x06);
    assert_eq!(host.subclass, 0x00);
    assert_eq!(host.revision, 0x02);
    assert_eq!(host.describe(), "00:00.0  8086:1237  Intel host bridge");
    let unknown = probe(0, 2, 1, 0xABCD_5555, 0x0C03_0000).unwrap();
    assert_eq!(unknown.describe(), "00:02.1  5555:abcd  USB controller");
    assert!(is_multifunction(0x0080_0000));
    assert!(!is_multifunction(0x0000_0000));
}

#[test]
fn rtc_decodes_bcd_twelve_hour_time() {
    assert_eq!(from_bcd(0x59), 59);
    let raw = Raw { second: 0x30, minute: 0x45, hour: 0x81, day: 0x15, month: 0x06, year: 0x24, century: 0x20 };
    let time = decode(raw, 0x00);
    assert_eq!((time.year, time.month, time.day), (2024, 6, 15));
    assert_eq!((time.hour, time.minute, time.second), (13, 45, 30));
    assert!(time.is_valid());
    let midnight = decode(Raw { second: 0, minute: 0, hour: 0x12, day: 1, month: 1, year: 0, century: 0 }, 0x00);
    assert_eq!(midnight.hour, 0);
    assert_eq!(midnight.year, 2000);
    let binary = decode(Raw { second: 5, minute: 6, hour: 23, day: 31, month: 12, year: 99, century: 0xFF }, 0x06);
    assert_eq!((binary.year, binary.hour), (2099, 23));
}

#[test]
fn palette_channels_round_trip() {
    let c = rgb(0x12, 0x34, 0x56);
    assert_eq!(c, 0x0012_3456);
    assert_eq!((red_of(c), green_of(c), blue_of(c)), (0x12, 0x34, 0x56));
    assert_eq!(blend(0x0000_0000, 0x00FF_FFFF, 255), 0x00FF_FFFF);
    assert_eq!(blend(0x0010_2030, 0x00FF_FFFF, 0), 0x0010_2030);
    assert_eq!(scale(0x0080_8080, 255), 0x0080_8080);
}

#[test]
fn keyboard_tracks_shift() {
    let mut state = KeyboardState::new();
    let plain = feed_key(&mut state, 0x1E).unwrap();
    assert_eq!(plain.key, Key::Char);
    assert_eq!(plain.character, Some('a'));
    assert!(plain.pressed);
    assert!(feed_key(&mut state, 0x2A).is_none());
    assert!(state.shift_left);
    let shifted = feed_key(&mut state, 0x1E).unwrap();
    assert_eq!(shifted.character, Some('A'));
    assert!(feed_key(&mut state, 0xAA).is_none());
    assert!(!state.shift_left);
    let released = feed_key(&mut state, 0x9E).unwrap();
    assert!(!released.pressed);
}

#[test]
fn mouse_assembles_three_byte_packets() {
    let mut state = MouseState::new();
    assert!(feed_mouse(&mut state, 0x00).is_none());
    assert!(feed_mouse(&mut state, 0x09).is_none());
    assert!(feed_mouse(&mut state, 0x05).is_none());
    let event = feed_mouse(&mut state, 0x03).unwrap();
    assert_eq!((event.dx, event.dy), (5, -3));
    assert!(event.left);
    assert!(event.left_changed);
}

#[test]
fn event_queue_is_first_in_first_out() {
    let mut queues = EventQueues::new();
    assert!(pop_key(&mut queues).is_none());
    for ch in ['x', 'y', 'z'] {
        push_key(
            &mut queues,
            KeyEvent { key: Key::Char, character: Some(ch), pressed: true, modifiers: Modifiers::default() },
        );
    }
    let order: Vec<char> = (0..3).map(|_| pop_key(&mut queues).unwrap().character.unwrap()).collect();
    assert_eq!(order, vec!['x', 'y', 'z']);
    assert!(pop_key(&mut queues).is_none());
    assert_eq!(dropped_events(&queues), (0, 0));
}

#[test]
fn heap_hands_out_aligned_blocks_and_takes_them_back() {
    let mut heap = Heap::new();
    assert!(heap.allocate(64, 16).is_none());
    heap.extend(0x10000);
    let a = heap.allocate(100, 16).unwrap();
    assert_eq!(a % 16, 0);
    let b = heap.allocate(24, 64).unwrap();
    assert_eq!(b % 64, 0);
    assert_ne!(a, b);
    let before = heap.stats();
    assert_eq!(before.live_allocations, 2);
    heap.release(a, 100);
    heap.release(b, 24);
    let after = heap.stats();
    assert_eq!(after.live_allocations, 0);
    assert_eq!(after.allocated, 0);
}
