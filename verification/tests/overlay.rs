//! Writes held in memory over a device.

use std::sync::atomic::{AtomicUsize, Ordering};
use std::sync::Mutex;

use fs_core::{BlockDevice, BlockRead};
use fs_xfs::overlay::{pages, OverlayDevice, PageSpan, PAGE};

/// What the device below holds, so the page arithmetic can be checked
/// without a filesystem or a file.
fn base(offset: u64, buf: &mut [u8]) {
    for (i, slot) in buf.iter_mut().enumerate() {
        *slot = ((offset + i as u64) % 251) as u8;
    }
}

/// The device below, as a write asks for it.
fn below(at: u64) -> Result<[u8; PAGE], String> {
    let mut page = [0u8; PAGE];
    base(at, &mut page);
    Ok(page)
}

/// Read through the overlay.
fn read_at(dev: &OverlayDevice, offset: u64, buf: &mut [u8]) {
    base(offset, buf);
    dev.read_over(offset, buf);
}

#[test]
fn an_unwritten_range_reads_through() {
    let dev = OverlayDevice::new();
    let mut buf = [0u8; 16];
    read_at(&dev, 4096, &mut buf);
    let mut expect = [0u8; 16];
    base(4096, &mut expect);
    assert_eq!(buf, expect);
}

/// A write that starts and ends inside a page must leave the rest of that
/// page as it was, and must not bleed into the neighbours.
#[test]
fn a_partial_page_write_keeps_its_edges() {
    let mut dev = OverlayDevice::new();
    // 300 bytes starting 100 into the first page.
    let payload = vec![0xA5u8; 300];
    dev.write_at(100, &payload, below).unwrap();

    let mut whole = [0u8; 1024];
    read_at(&dev, 0, &mut whole);
    let mut under = [0u8; 1024];
    base(0, &mut under);

    assert_eq!(&whole[..100], &under[..100], "leading bytes of page 0");
    assert!(
        whole[100..400].iter().all(|&b| b == 0xA5),
        "the written span should read back as written"
    );
    assert_eq!(&whole[400..512], &under[400..512], "trailing bytes of page 0");
    assert_eq!(&whole[512..], &under[512..], "page 1 was not touched by the tail");
}

/// Writing a whole page and reading a subrange of it must agree with the
/// write, not with what was underneath.
#[test]
fn a_written_page_wins_for_any_subrange() {
    let mut dev = OverlayDevice::new();
    dev.write_at(2048, &vec![0x5Au8; 512], below).unwrap();
    let mut buf = [0u8; 40];
    read_at(&dev, 2200, &mut buf);
    assert!(buf.iter().all(|&b| b == 0x5A), "a subrange of a written page");
}

/// A device that holds an image and counts the writes that reach it.
struct Image {
    bytes: Mutex<Vec<u8>>,
    writes: AtomicUsize,
}

impl BlockRead for Image {
    fn read_at(&self, offset: u64, buf: &mut [u8]) -> fs_core::Result<()> {
        let bytes = self.bytes.lock().unwrap();
        let start = offset as usize;
        buf.copy_from_slice(&bytes[start..start + buf.len()]);
        Ok(())
    }

    fn size_bytes(&self) -> u64 {
        self.bytes.lock().unwrap().len() as u64
    }
}

impl BlockDevice for Image {
    fn write_at(&self, offset: u64, buf: &[u8]) -> fs_core::Result<()> {
        self.writes.fetch_add(1, Ordering::SeqCst);
        let start = offset as usize;
        self.bytes.lock().unwrap()[start..start + buf.len()].copy_from_slice(buf);
        Ok(())
    }
}

/// Writes are accepted, and the device below never sees a byte of them.
#[test]
fn writes_are_accepted_and_do_not_reach_the_device_below() {
    let mut original = vec![0u8; 1 << 16];
    base(0, &mut original);
    let plain = Image { bytes: Mutex::new(original.clone()), writes: AtomicUsize::new(0) };
    assert!(!plain.is_writable(), "fs_core's default models read-only");

    let page_below = |at: u64| -> Result<[u8; PAGE], String> {
        let mut page = [0u8; PAGE];
        plain.read_at(at, &mut page).map_err(|e| e.to_string())?;
        Ok(page)
    };
    let mut ov = OverlayDevice::new();
    let mut buf = [0u8; 8];
    ov.write_at(512, &[0x11u8; 8], page_below).unwrap();
    plain.read_at(512, &mut buf).unwrap();
    ov.read_over(512, &mut buf);
    assert!(buf.iter().all(|&b| b == 0x11), "the overlay serves its own write");

    let mut untouched = [0u8; 8];
    plain.read_at(512, &mut untouched).unwrap();
    assert_eq!(plain.writes.load(Ordering::SeqCst), 0, "the device below was not written to");
    assert_eq!(*plain.bytes.lock().unwrap(), original, "and holds what it held");
    assert_ne!(untouched, buf, "and it does not agree with the overlay");
}

/// A write across pages reads back whole, and a later one over it wins
/// where they meet.
#[test]
fn later_writes_win_where_they_meet() {
    let mut dev = OverlayDevice::new();
    dev.write_at(500, &[1u8; 600], below).unwrap();
    dev.write_at(1020, &[2u8; 10], below).unwrap();
    let mut got = [0u8; 2048];
    read_at(&dev, 0, &mut got);
    let mut expect = [0u8; 2048];
    base(0, &mut expect);
    expect[500..1100].fill(1);
    expect[1020..1030].fill(2);
    assert_eq!(got, expect);
    // Unaligned reads see the same bytes.
    let mut part = [0u8; 100];
    read_at(&dev, 1015, &mut part);
    assert_eq!(&part[..], &expect[1015..1115]);
}

/// The parts of a request, page by page.
#[test]
fn a_request_is_cut_at_page_boundaries() {
    assert_eq!(
        pages(1000, 600),
        vec![
            PageSpan { index: 1, request_start: 0, request_end: 24, page_start: 488, page_end: 512 },
            PageSpan { index: 2, request_start: 24, request_end: 536, page_start: 0, page_end: 512 },
            PageSpan { index: 3, request_start: 536, request_end: 600, page_start: 0, page_end: 64 },
        ]
    );
    assert_eq!(pages(512, 0), vec![]);
    assert_eq!(
        pages(513, 0),
        vec![PageSpan { index: 1, request_start: 0, request_end: 0, page_start: 1, page_end: 1 }]
    );
    assert_eq!(
        pages(u64::MAX - 511 - 8, 8),
        vec![PageSpan {
            index: u64::MAX / 512 - 1,
            request_start: 0,
            request_end: 8,
            page_start: 504,
            page_end: 512
        }]
    );
}

/// If the device below fails, the write fails with its words. The pages
/// before that one stay written, and nothing behind it is.
#[test]
fn a_failing_device_below_ends_the_write() {
    let failing = |at: u64| {
        if at == 1024 {
            Err(String::from("bad sector"))
        } else {
            below(at)
        }
    };
    let mut dev = OverlayDevice::new();
    assert_eq!(dev.write_at(700, &[9u8; 1000], failing), Err(String::from("bad sector")));
    let mut got = [0u8; 2048];
    read_at(&dev, 0, &mut got);
    let mut expect = [0u8; 2048];
    base(0, &mut expect);
    expect[700..1024].fill(9);
    assert_eq!(got, expect);
}

/// A page that was written already is not asked for again.
#[test]
fn a_held_page_is_not_read_from_below_again() {
    let mut dev = OverlayDevice::new();
    dev.write_at(0, &[3u8; 512], below).unwrap();
    let never = |_: u64| -> Result<[u8; PAGE], String> { Err(String::from("asked below")) };
    assert_eq!(dev.write_at(10, &[4u8; 5], never), Ok(()));
    let mut got = [0u8; 20];
    read_at(&dev, 0, &mut got);
    assert_eq!(&got[..10], &[3u8; 10]);
    assert_eq!(&got[10..15], &[4u8; 5]);
    assert_eq!(&got[15..], &[3u8; 5]);
}
