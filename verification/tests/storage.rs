//! Disks behind HTTP and the input of a web page.

use riscbox::browser::{BrowserController, BrowserEvent, KeyEvent, PointerEvent, RunPolicy};
use riscbox::browser_storage::{HttpBlockStore, HttpMethod, HttpQueue, StorageError};
use riscbox::ninep::{BrowserNineP, NinePEndpointId, NinePGeneration, NinePRequestId,
    NinePTransportAction};

fn store(source: &str) -> Result<HttpBlockStore, StorageError> {
    HttpBlockStore::from_manifest("http://h/disk/blk.txt", source, 8192)
}

#[test]
fn missing_blocks_are_requested_once() {
    let mut disk = store("{block_size: 4, n_block: 3}").unwrap();
    assert_eq!(disk.capacity_sectors(), 24);
    let mut data = [0; 1024];
    assert_eq!(disk.read_sectors(9, &mut data), Err(StorageError::MissingBlock(1)));
    assert_eq!(disk.read_sectors(9, &mut data), Err(StorageError::MissingBlock(1)));
    let request = disk.next_request().unwrap();
    assert_eq!(request.url, "http://h/disk/blk000000001.bin");
    assert_eq!(request.method, HttpMethod::Get);
    assert_eq!(disk.next_request(), None);
    let mut block = vec![0; 4096];
    block[512..1536].fill(9);
    disk.complete(request.id, block).unwrap();
    disk.read_sectors(9, &mut data).unwrap();
    assert_eq!(data, [9; 1024]);
}

#[test]
fn written_sectors_are_kept() {
    let mut disk = store("{block_size: 4, n_block: 3, prefetch: [0]}").unwrap();
    let request = disk.next_request().unwrap();
    disk.complete(request.id, vec![5; 4096]).unwrap();
    disk.write_sectors(2, &[1; 512]).unwrap();
    let mut data = [0; 1536];
    disk.read_sectors(1, &mut data).unwrap();
    assert_eq!(data[..512], [5; 512]);
    assert_eq!(data[512..1024], [1; 512]);
    assert_eq!(data[1024..], [5; 512]);
    assert_eq!(disk.write_sectors(8, &[1; 512]), Err(StorageError::MissingBlock(1)));
    let request = disk.next_request().unwrap();
    assert_eq!(request.url, "http://h/disk/blk000000001.bin");
    assert_eq!(request.method, HttpMethod::Get);
    assert_eq!(disk.next_request(), None);
}

#[test]
fn the_cache_keeps_its_limit() {
    let mut disk = store("{block_size: 4, n_block: 9, prefetch: [0, 1, 2]}").unwrap();
    for value in 0..3 {
        let request = disk.next_request().unwrap();
        disk.complete(request.id, vec![value; 4096]).unwrap();
    }
    assert_eq!(disk.cache.len(), 2);
    let mut data = [0; 512];
    assert_eq!(disk.read_sectors(0, &mut data), Err(StorageError::MissingBlock(0)));
    assert_eq!(disk.read_sectors(8, &mut data), Ok(()));
    assert_eq!(data, [1; 512]);
}

#[test]
fn disks_check_what_they_are_given() {
    for (source, message) in [
        ("{", "syntax"),
        ("1", "object expected"),
        ("{}", "block_size"),
        ("{block_size: 3, n_block: 1}", "invalid block_size"),
        ("{block_size: 4, n_block: 0}", "n_block"),
        ("{block_size: 4, n_block: 1, prefetch: 1}", "prefetch array expected"),
        ("{block_size: 4, n_block: 1, prefetch: [true]}", "prefetch integer expected"),
    ] {
        assert_eq!(store(source).err(), Some(StorageError::InvalidManifest(message)));
    }
    assert_eq!(
        store("{block_size: 4, n_block: 1, prefetch: [1]}").err(),
        Some(StorageError::OutOfRange)
    );
    let mut disk = store("{block_size: 4, n_block: 1, prefetch: [0]}").unwrap();
    assert_eq!(disk.read_sectors(7, &mut [0; 1024]), Err(StorageError::OutOfRange));
    assert_eq!(disk.read_sectors(0, &mut [0; 100]), Err(StorageError::OutOfRange));
    assert_eq!(disk.read_sectors(u64::MAX, &mut [0; 512]), Err(StorageError::OutOfRange));
    assert_eq!(disk.complete(99, vec![]), Err(StorageError::UnknownRequest));
    let request = disk.next_request().unwrap();
    assert_eq!(disk.complete(request.id, vec![1]), Err(StorageError::InvalidResponse));
}

#[test]
fn requests_are_answered_once() {
    let mut queue = HttpQueue::default();
    let id = queue.get("u".into());
    assert_eq!(queue.next_request().unwrap().id, id);
    assert_eq!(queue.complete(id), Ok("u".into()));
    assert_eq!(queue.complete(id), Err(StorageError::UnknownRequest));
}

#[test]
fn console_input_is_bounded_and_in_order() {
    let mut controller = BrowserController::default();
    assert_eq!(controller.queue_console(&[1; 1000]), 1000);
    assert_eq!(controller.queue_console(&[2; 100]), 24);
    let mut output = [0; 1010];
    assert_eq!(controller.read_console(&mut output), 1010);
    assert_eq!(output[999..1001], [1, 2]);
    assert_eq!(controller.read_console(&mut output), 14);
}

#[test]
fn events_come_in_order() {
    let mut controller = BrowserController::default();
    controller.key_event(true, 30);
    controller.pointer_event(1, 2, 1);
    controller.wheel_event(-1);
    controller.network_carrier(true);
    controller.network_packet(b"p");
    controller.resize(80, 25);
    controller.resize(100, 30);
    assert_eq!(controller.take_resize().map(|size| size.columns), Some(100));
    assert_eq!(controller.take_resize(), None);
    assert!(controller.carrier_is_up());
    assert_eq!(
        controller.next_event(),
        Some(BrowserEvent::Key(KeyEvent { pressed: true, code: 30 }))
    );
    assert_eq!(
        controller.next_event(),
        Some(BrowserEvent::Pointer(PointerEvent { x: 1, y: 2, wheel: 0, buttons: 1 }))
    );
    assert_eq!(
        controller.next_event(),
        Some(BrowserEvent::Pointer(PointerEvent { x: 1, y: 2, wheel: -1, buttons: 1 }))
    );
    assert_eq!(controller.next_event(), Some(BrowserEvent::NetworkCarrier(true)));
    assert_eq!(controller.next_event(), Some(BrowserEvent::NetworkPacket(b"p".to_vec())));
    assert_eq!(controller.next_event(), None);
}

#[test]
fn slices_are_rounded_up() {
    let policy = RunPolicy { block_cycles: 7, yield_cycles: 20, maximum_delay_ms: 10 };
    assert_eq!(policy.blocks_per_slice(), 3);
    assert_eq!(policy.scheduled_delay(4), 4);
    assert_eq!(policy.scheduled_delay(40), 10);
    assert_eq!(RunPolicy::default().blocks_per_slice(), 15);
    let idle = RunPolicy { block_cycles: 0, ..policy };
    assert_eq!(idle.blocks_per_slice(), 20);
}

#[test]
fn a_reset_transport_opens_again() {
    let endpoint = NinePEndpointId(1);
    let mut transport = BrowserNineP::new(endpoint, "key".into());
    transport.submit(NinePRequestId(4), vec![1, 2], 100);
    transport.reset(NinePGeneration(2));
    let generation = NinePGeneration(1);
    let mut actions = Vec::new();
    while transport.has_transport_action() {
        actions.push(transport.next_transport_action().unwrap());
    }
    assert_eq!(
        actions,
        [
            NinePTransportAction::Open { endpoint, generation, server_key: "key".into() },
            NinePTransportAction::Request {
                endpoint,
                generation,
                request_id: NinePRequestId(4),
                bytes: vec![1, 2],
                reply_capacity: 100,
            },
            NinePTransportAction::Close { endpoint, generation },
            NinePTransportAction::Open {
                endpoint,
                generation: NinePGeneration(2),
                server_key: "key".into(),
            },
        ]
    );
    assert_eq!(transport.next_transport_action(), None);
}

#[test]
fn short_disks_take_writes() {
    let mut disk =
        HttpBlockStore::from_manifest("blk.txt", "{block_size: 1, n_block: 1}", 0).unwrap();
    assert_eq!(disk.capacity_sectors(), 2);
    assert_eq!(disk.write_sectors(0, &[7; 512]), Err(StorageError::MissingBlock(0)));
    let request = disk.next_request().unwrap();
    assert_eq!(disk.next_request(), None);
    disk.complete(request.id, vec![5; 1024]).unwrap();
    disk.write_sectors(0, &[7; 512]).unwrap();
    let mut data = [0; 1024];
    disk.read_sectors(0, &mut data).unwrap();
    assert_eq!(data[..512], [7; 512]);
    assert_eq!(data[512..], [5; 512]);
    assert_eq!(disk.read_sectors(1, &mut data), Err(StorageError::OutOfRange));
}

#[test]
fn written_sectors_outlive_their_block() {
    let mut disk = store("{block_size: 4, n_block: 9, prefetch: [0]}").unwrap();
    let request = disk.next_request().unwrap();
    disk.complete(request.id, vec![5; 4096]).unwrap();
    disk.write_sectors(2, &[1; 512]).unwrap();
    let mut data = [0; 512];
    for block in 1..5 {
        let sector = 8 * u64::from(block);
        assert_eq!(disk.read_sectors(sector, &mut data), Err(StorageError::MissingBlock(block)));
        let request = disk.next_request().unwrap();
        disk.complete(request.id, vec![9; 4096]).unwrap();
        disk.read_sectors(sector, &mut data).unwrap();
        assert_eq!(data, [9; 512]);
    }
    assert!(!disk.cache.contains_key(&0));
    let mut data = [0; 1536];
    disk.read_sectors(1, &mut data).unwrap();
    assert_eq!(data[..512], [5; 512]);
    assert_eq!(data[512..1024], [1; 512]);
    assert_eq!(data[1024..], [5; 512]);
}

#[test]
fn refused_answers_leave_the_disk_waiting() {
    let mut disk = store("{block_size: 4, n_block: 3, prefetch: [0]}").unwrap();
    let request = disk.next_request().unwrap();
    assert!(disk.complete(request.id, vec![0; 100]).is_err());
    assert_eq!(disk.read_sectors(0, &mut [0; 512]), Err(StorageError::MissingBlock(0)));
    assert_eq!(disk.complete(request.id, vec![0; 4096]), Err(StorageError::UnknownRequest));
}

#[test]
fn answers_are_readable_when_the_clock_wraps() {
    let mut disk = store("{block_size: 4, n_block: 9, prefetch: [0, 1, 2]}").unwrap();
    disk.clock = u64::MAX - 2;
    for value in 0..3 {
        let request = disk.next_request().unwrap();
        disk.complete(request.id, vec![value; 4096]).unwrap();
    }
    assert_eq!(disk.clock, 0);
    assert_eq!(disk.cache.len(), 2);
    let mut data = [0; 512];
    assert_eq!(disk.read_sectors(16, &mut data), Ok(()));
    assert_eq!(data, [2; 512]);
    assert_eq!(disk.read_sectors(0, &mut data), Err(StorageError::MissingBlock(0)));
}
