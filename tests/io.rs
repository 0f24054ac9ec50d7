use psrdada::builder::DadaClientBuilder;
use psrdada::client::State;
use psrdada::errors::PsrdadaError;

#[test]
fn test_construct_client() {
    let _client = DadaClientBuilder::new(2).build().unwrap();
}

#[test]
fn test_sizing() {
    let client = DadaClientBuilder::new(2)
        .num_bufs(1)
        .buf_size(128)
        .num_headers(4)
        .header_size(64)
        .build()
        .unwrap();
    assert_eq!(client.data_buf_size(), 128);
    assert_eq!(client.data_buf_count(), 1);
    assert_eq!(client.header_buf_count(), 4);
    assert_eq!(client.header_buf_size(), 64);
}

#[test]
fn test_push() {
    let mut client = DadaClientBuilder::new(2).build().unwrap();
    let (_, dc) = client.split();

    let mut writer = dc.writer().unwrap();
    assert_eq!(32, writer.push(&[0u8; 32]).unwrap());
    writer.unlock();

    let mut reader = dc.reader().unwrap();
    let block = reader.next().unwrap();
    assert_eq!([0u8; 32], block.block());
    block.done(&mut reader);
}

#[test]
fn test_push_pop_data() {
    let mut client = DadaClientBuilder::new(2).build().unwrap();
    assert_eq!(8, client.push_data(&[0u8; 8]).unwrap());
    assert_eq!(vec![0u8; 8], client.pop_data().unwrap());
}

fn check_write(key: i32) {
    let mut client = DadaClientBuilder::new(key).build().unwrap();
    let (_, dc) = client.split();
    let mut writer = dc.writer().unwrap();
    let mut db = writer.next().unwrap();
    let amnt = db.write(&[0u8, 1u8, 2u8, 3u8]).expect("Writing shouldn't fail");
    assert_eq!(amnt, 4);
}

fn check_bad_write(key: i32) {
    let mut client = DadaClientBuilder::new(key).buf_size(2).build().unwrap();
    let (_, dc) = client.split();
    let mut writer = dc.writer().unwrap();
    let mut db = writer.next().unwrap();
    let _er = db.write(&[0u8, 1u8, 2u8, 3u8]).expect_err("Writing should fail");
}

fn check_read_write(key: i32) {
    let mut client = DadaClientBuilder::new(key).buf_size(4).build().unwrap();
    let (_, dc) = client.split();
    let bytes = [0u8, 1u8, 2u8, 3u8];
    // Write
    let mut writer = dc.writer().unwrap();
    let mut db = writer.next().unwrap();
    assert_eq!(bytes.len(), db.write(&bytes).unwrap());
    // Commit the memory to the ring buffer
    db.commit(&mut writer);
    writer.unlock();
    // Read the bytes back
    let mut reader = dc.reader().unwrap();
    let rb = reader.next().unwrap();
    assert_eq!(bytes, rb.block());
    rb.done(&mut reader);
}

fn check_multi_read_write(key: i32) {
    let mut client = DadaClientBuilder::new(key).buf_size(8).build().unwrap();
    let (_, dc) = client.split();
    let bytes = [0u8, 1u8, 2u8, 3u8, 4u8, 5u8, 6u8, 7u8];
    let mut writer = dc.writer().unwrap();

    let mut db = writer.next().unwrap();
    assert_eq!(4, db.write(&bytes[0..4]).unwrap());
    assert_eq!(4, db.write(&bytes[4..]).unwrap());
    db.commit(&mut writer);
    writer.unlock();
    // Read the bytes back
    let mut reader = dc.reader().unwrap();
    let rb = reader.next().unwrap();
    assert_eq!(bytes, rb.block());
    rb.done(&mut reader);
}

fn check_fill_buffer_and_drain(key: i32) {
    let mut client = DadaClientBuilder::new(key).buf_size(8).num_bufs(4).build().unwrap();
    let (_, dc) = client.split();

    let mut writer = dc.writer().unwrap();

    // Fill the buffer
    let bytes = [0u8, 1u8, 2u8, 3u8, 4u8, 5u8, 6u8, 7u8];
    for _ in 0..4 {
        let mut db = writer.next().unwrap();
        assert_eq!(8, db.write(&bytes).unwrap());
        db.commit(&mut writer);
    }
    // Every slot is filled: there is no fifth block until the reader clears one.
    assert!(writer.next().is_none());
    writer.unlock();

    // Drain the buffer
    let mut reader = dc.reader().unwrap();
    for _ in 0..4 {
        let rb = reader.next().unwrap();
        assert_eq!(bytes, rb.block());
        rb.done(&mut reader);
    }
}

fn check_explicit_eod(key: i32, extra_none: bool) {
    let mut client = DadaClientBuilder::new(key).buf_size(8).build().unwrap();
    let (_, dc) = client.split();

    let mut writer = dc.writer().unwrap();

    // Write full buffers twice, second one being eod
    let bytes = [0u8, 1u8, 2u8, 3u8, 4u8, 5u8, 6u8, 7u8];
    let mut db = writer.next().unwrap();
    assert_eq!(8, db.write(&bytes).unwrap());
    db.commit(&mut writer);

    let mut db = writer.next().unwrap();
    assert_eq!(8, db.write(&bytes).unwrap());
    db.mark_eod();
    db.commit(&mut writer);
    writer.unlock();

    let mut reader = dc.reader().unwrap();

    // Read twice, third read should be None
    let rb = reader.next().unwrap();
    assert_eq!(bytes, rb.block());
    rb.done(&mut reader);
    let rb = reader.next().unwrap();
    assert_eq!(bytes, rb.block());
    rb.done(&mut reader);
    assert!(reader.next().is_none());
    if extra_none {
        assert!(reader.next().is_none());
    }
}

fn check_implicit_eod(key: i32, extra_none: bool) {
    let mut client = DadaClientBuilder::new(key).buf_size(8).build().unwrap();
    let (_, dc) = client.split();

    let mut writer = dc.writer().unwrap();

    // Write one full buffer, one less than full
    let bytes = [0u8, 1u8, 2u8, 3u8, 4u8, 5u8, 6u8, 7u8];
    let mut db = writer.next().unwrap();
    assert_eq!(8, db.write(&bytes).unwrap());
    db.commit(&mut writer);

    let bytes_fewer = [0u8, 1u8, 2u8, 3u8, 4u8, 5u8, 6u8];
    let mut db = writer.next().unwrap();
    assert_eq!(7, db.write(&bytes_fewer).unwrap());
    db.commit(&mut writer);
    writer.unlock();

    let mut reader = dc.reader().unwrap();

    // Read twice, third read should be None
    let rb = reader.next().unwrap();
    assert_eq!(bytes, rb.block());
    rb.done(&mut reader);
    let rb = reader.next().unwrap();
    assert_eq!(bytes_fewer, rb.block());
    rb.done(&mut reader);
    assert!(reader.next().is_none());
    if extra_none {
        assert!(reader.next().is_none());
    }
}

fn check_headers(key: i32) {
    let mut client = DadaClientBuilder::new(key).build().unwrap();
    let (hc, _) = client.split();

    let mut writer = hc.writer().unwrap();

    let bytes = [0u8; 128];
    let mut hb = writer.next().unwrap();
    assert_eq!(128, hb.write(&bytes).unwrap());
    hb.commit(&mut writer);
    writer.unlock();

    let mut reader = hc.reader().unwrap();
    let rb = reader.next().unwrap();
    assert_eq!(bytes, rb.block());
    rb.done(&mut reader);
}

#[test]
fn io_bak_test_write() {
    check_write(2);
}

#[test]
fn io_bak_test_bad_write() {
    check_bad_write(2);
}

#[test]
fn io_bak_test_read_write() {
    check_read_write(2);
}

#[test]
fn io_bak_test_multi_read_write() {
    check_multi_read_write(2);
}

#[test]
fn io_bak_test_fill_buffer_and_drain() {
    check_fill_buffer_and_drain(2);
}

#[test]
fn io_bak_test_explicit_eod() {
    check_explicit_eod(2, false);
}

#[test]
fn io_bak_test_implicit_eod() {
    check_implicit_eod(2, false);
}

#[test]
fn io_bak_test_headers() {
    check_headers(2);
}

#[test]
fn io_test_write() {
    check_write(4);
}

#[test]
fn io_test_bad_write() {
    check_bad_write(4);
}

#[test]
fn io_test_read_write() {
    check_read_write(4);
}

#[test]
fn io_test_multi_read_write() {
    check_multi_read_write(4);
}

#[test]
fn io_test_fill_buffer_and_drain() {
    check_fill_buffer_and_drain(4);
}

#[test]
fn io_test_explicit_eod() {
    check_explicit_eod(4, false);
}

#[test]
fn io_test_implicit_eod() {
    check_implicit_eod(4, true);
}

#[test]
fn io_test_headers() {
    check_headers(4);
}

#[test]
fn test_read_write_many() {
    let mut client = DadaClientBuilder::new(2).num_bufs(4).buf_size(4).build().unwrap();
    let (_, dc) = client.split();

    // Write a data to all four blocks and mark the last one as eod
    let mut writer = dc.writer().unwrap();
    for i in 0..4 {
        let mut block = writer.next().unwrap();
        block.write(&[0, 1, 2, 3]).unwrap();
        if i == 3 {
            block.mark_eod();
        }
        block.commit(&mut writer);
    }
    writer.unlock();

    // Read them back
    let mut reader = dc.reader().unwrap();
    let mut buf = [0u8; 4];
    let mut count = 0;
    while let Some(mut block) = reader.next() {
        block.read(&mut buf).unwrap();
        assert_eq!(buf, [0, 1, 2, 3]);
        block.done(&mut reader);
        count += 1;
    }
    assert_eq!(count, 4);
}

#[test]
fn test_read_to_vec() {}

#[test]
fn read_test_read_write() {
    let mut client = DadaClientBuilder::new(2).build().unwrap();
    let (_, dc) = client.split();

    // Write some data
    let mut writer = dc.writer().unwrap();
    let mut block = writer.next().unwrap();
    block.write(&[0, 1, 2, 3]).unwrap();
    block.commit(&mut writer);
    writer.unlock();

    // Read it back
    let mut reader = dc.reader().unwrap();
    let block = reader.next().unwrap();
    assert_eq!(block.block().len(), 4);
    assert_eq!(block.block(), &[0, 1, 2, 3]);
    block.done(&mut reader);
}

#[test]
fn test_read_write_implicit_eod() {
    let mut client = DadaClientBuilder::new(2).buf_size(4).build().unwrap();
    let (_, dc) = client.split();

    // Write some data
    let mut writer = dc.writer().unwrap();
    let mut block = writer.next().unwrap();
    block.write(&[0, 1, 2]).unwrap();
    block.commit(&mut writer);
    writer.unlock();

    // Read it back
    let mut reader = dc.reader().unwrap();
    let block = reader.next().unwrap();
    assert_eq!(block.block().len(), 3);
    assert_eq!(block.block(), &[0, 1, 2]);
    block.done(&mut reader);

    // This one is eod now
    let block = reader.next();
    assert!(block.is_none())
}

#[test]
fn test_read_write_explicit_eod() {
    let mut client = DadaClientBuilder::new(2).buf_size(4).build().unwrap();
    let (_, dc) = client.split();

    // Write some data
    let mut writer = dc.writer().unwrap();
    let mut block = writer.next().unwrap();
    block.write(&[0, 1, 2, 3]).unwrap();
    block.mark_eod();
    block.commit(&mut writer);
    writer.unlock();

    // Read it back
    let mut reader = dc.reader().unwrap();
    let block = reader.next().unwrap();
    assert_eq!(block.block().len(), 4);
    assert_eq!(block.block(), &[0, 1, 2, 3]);
    block.done(&mut reader);

    // This one is eod now
    let block = reader.next();
    assert!(block.is_none())
}

#[test]
fn test_read_write_with_iter() {
    let mut client = DadaClientBuilder::new(2).build().unwrap();
    let (_, dc) = client.split();

    // Write some data
    let mut writer = dc.writer().unwrap();
    let mut block = writer.next().unwrap();
    block.write(&[0, 1, 2, 3]).unwrap();
    block.commit(&mut writer);
    writer.unlock();

    // Read it back
    let mut reader = dc.reader().unwrap();
    let block = reader.next().unwrap();
    assert_eq!(block.block().len(), 4);
    assert_eq!(block.block(), &[0, 1, 2, 3]);
    block.done(&mut reader);
}

#[test]
fn test_read_write_with_std_read() {
    let mut client = DadaClientBuilder::new(2).build().unwrap();
    let (_, dc) = client.split();

    // Write some data
    let mut writer = dc.writer().unwrap();
    let mut block = writer.next().unwrap();
    block.write(&[0, 1, 2, 3]).unwrap();
    block.commit(&mut writer);
    writer.unlock();

    // Read it back
    let mut reader = dc.reader().unwrap();
    let mut block = reader.next().unwrap();
    let mut buf = [0u8; 4];
    block.read(&mut buf).unwrap();
    assert_eq!(buf, [0, 1, 2, 3]);
    block.done(&mut reader);
}

#[test]
fn test_read_write_with_std_read_to_vec() {
    let mut client = DadaClientBuilder::new(2).build().unwrap();
    let (_, dc) = client.split();

    // Write some data
    let mut writer = dc.writer().unwrap();
    let mut block = writer.next().unwrap();
    block.write(&[0, 1, 2, 3]).unwrap();
    block.commit(&mut writer);
    writer.unlock();

    // Read it back
    let mut reader = dc.reader().unwrap();
    let mut block = reader.next().unwrap();
    let mut buf = vec![];
    block.read_to_end(&mut buf);
    assert_eq!(buf, [0, 1, 2, 3]);
    block.done(&mut reader);
}

#[test]
fn write_test_write() {
    let mut client = DadaClientBuilder::new(2).build().unwrap();
    let (_, dc) = client.split();
    let mut writer = dc.writer().unwrap();
    // Get the writing block
    let mut block = writer.next().unwrap();
    // Write some data
    let bytes = block.block_mut();
    let data = [0, 1, 2, 3];
    bytes[..4].clone_from_slice(&data);
    block.increment_filled(4).unwrap();
    block.commit(&mut writer);
    writer.unlock();
    let mut reader = dc.reader().unwrap();
    let block = reader.next().unwrap();
    assert_eq!(block.block(), &[0, 1, 2, 3]);
}

#[test]
fn write_test_bad_write() {
    let mut client = DadaClientBuilder::new(2).buf_size(2).build().unwrap();
    let (_, dc) = client.split();
    let mut writer = dc.writer().unwrap();
    let mut db = writer.next().unwrap();
    let _er = db.write(&[0u8, 1u8, 2u8, 3u8]).expect_err("Writing should fail");
}

#[test]
fn test_write_with_iter() {
    let mut client = DadaClientBuilder::new(2).num_bufs(4).buf_size(4).build().unwrap();
    let (_, dc) = client.split();
    let mut writer = dc.writer().unwrap();

    // Write four times
    let mut i = 0;
    while let Some(mut block) = writer.next() {
        i += 1;
        // Write some data
        let bytes = block.block_mut();
        let data = [0, 1, 2, 3];
        bytes[..4].clone_from_slice(&data);
        block.increment_filled(4).unwrap();
        block.commit(&mut writer);
        if i == 4 {
            break;
        }
    }
    assert_eq!(i, 4);
}

#[test]
fn test_write_with_std_write() {
    let mut client = DadaClientBuilder::new(2).num_bufs(4).buf_size(4).build().unwrap();
    let (_, dc) = client.split();
    let mut writer = dc.writer().unwrap();

    // Write four times
    let mut i = 0;
    while let Some(mut block) = writer.next() {
        i += 1;
        let data = [0, 1, 2, 3];
        block.write(&data).unwrap();
        block.commit(&mut writer);
        if i == 4 {
            break;
        }
    }
    assert_eq!(i, 4);
}

#[test]
fn overflow_leaves_nothing_for_the_reader() {
    let mut client = DadaClientBuilder::new(2).buf_size(4).build().unwrap();
    assert_eq!(client.push_data(&[1, 2, 3, 4, 5]), Err(PsrdadaError::DadaWriteError));
    assert_eq!(client.pop_data(), None);
    assert_eq!(client.push_data(&[1, 2, 3, 4]), Ok(4));
    assert_eq!(client.pop_data(), Some(vec![1, 2, 3, 4]));
}

#[test]
fn write_past_slot_changes_nothing() {
    let mut client = DadaClientBuilder::new(2).buf_size(4).build().unwrap();
    let (_, dc) = client.split();
    let mut writer = dc.writer().unwrap();
    let mut db = writer.next().unwrap();
    assert_eq!(db.write(&[9, 9]), Ok(2));
    assert_eq!(db.write(&[1, 2, 3]), Err(PsrdadaError::DadaWriteError));
    assert_eq!(db.increment_filled(3), Err(PsrdadaError::DadaWriteError));
    assert_eq!(db.block(), &[9, 9, 0, 0]);
}

#[test]
fn read_past_block_is_refused() {
    let mut client = DadaClientBuilder::new(2).buf_size(4).build().unwrap();
    assert_eq!(client.push_data(&[1, 2, 3, 4]), Ok(4));
    let (_, dc) = client.split();
    let mut reader = dc.reader().unwrap();
    let mut block = reader.next().unwrap();
    let mut two = [0u8; 2];
    assert_eq!(block.read(&mut two), Ok(2));
    assert_eq!(two, [1, 2]);
    let mut three = [0u8; 3];
    assert_eq!(block.read(&mut three), Err(PsrdadaError::DadaReadError));
    assert_eq!(block.read(&mut two), Ok(2));
    assert_eq!(two, [3, 4]);
}

#[test]
fn fifo_order_of_distinct_blocks() {
    let mut client = DadaClientBuilder::new(2).num_bufs(3).buf_size(2).build().unwrap();
    for b in [[1u8, 2u8], [3, 4], [5, 6]] {
        assert_eq!(client.push_data(&b), Ok(2));
    }
    assert_eq!(client.push_data(&[7, 8]), Err(PsrdadaError::DadaWriteError));
    assert_eq!(client.pop_data(), Some(vec![1, 2]));
    assert_eq!(client.pop_data(), Some(vec![3, 4]));
    assert_eq!(client.pop_data(), Some(vec![5, 6]));
    assert_eq!(client.pop_data(), None);
}

#[test]
fn wraparound_reuses_slots() {
    let mut client = DadaClientBuilder::new(2).num_bufs(2).buf_size(1).build().unwrap();
    for i in 0..7u8 {
        assert_eq!(client.push_data(&[i]), Ok(1));
        if i % 2 == 1 {
            assert_eq!(client.pop_data(), Some(vec![i - 1]));
            assert_eq!(client.pop_data(), Some(vec![i]));
        }
    }
    assert_eq!(client.pop_data(), Some(vec![6]));
    assert_eq!(client.pop_data(), None);
}

#[test]
fn full_slot_does_not_end_the_stream() {
    let mut client = DadaClientBuilder::new(2).buf_size(2).build().unwrap();
    assert_eq!(client.push_data(&[1, 2]), Ok(2));
    assert_eq!(client.pop_data(), Some(vec![1, 2]));
    assert_eq!(client.push_data(&[3]), Ok(1));
    assert_eq!(client.pop_data(), Some(vec![3]));
    // The short block ended the stream; later data waits for a reset.
    assert_eq!(client.push_data(&[4, 5]), Ok(2));
    assert_eq!(client.pop_data(), None);
    assert_eq!(client.reset(), Ok(()));
    assert_eq!(client.pop_data(), None);
    assert_eq!(client.push_data(&[6, 7]), Ok(2));
    assert_eq!(client.pop_data(), Some(vec![6, 7]));
}

#[test]
fn roles_are_exclusive() {
    let mut client = DadaClientBuilder::new(2).build().unwrap();
    let (hc, dc) = client.split();
    assert_eq!(dc.state(), State::Connected);
    let writer = dc.writer().unwrap();
    writer.unlock();
    let writer = hc.writer().unwrap();
    drop(writer);
    // The writer was dropped without unlocking: the role is still held.
    assert!(matches!(hc.writer(), Err(PsrdadaError::DadaLockingError)));
    assert_eq!(hc.state(), State::Writer);
    assert_eq!(client.reset(), Err(PsrdadaError::DadaLockingError));
    assert_eq!(client.push_header(&vec![]), Err(PsrdadaError::DadaLockingError));
}

#[test]
fn build_refuses_empty_rings_and_last_key() {
    assert!(matches!(
        DadaClientBuilder::new(2).num_bufs(0).build(),
        Err(PsrdadaError::DadaInitError)
    ));
    assert!(matches!(
        DadaClientBuilder::new(2).num_headers(0).build(),
        Err(PsrdadaError::DadaInitError)
    ));
    assert!(matches!(DadaClientBuilder::new(i32::MAX).build(), Err(PsrdadaError::DadaInitError)));
}

#[test]
fn build_defaults_follow_the_page_size() {
    let client = DadaClientBuilder::new(2).build_with_page_size(4096).unwrap();
    assert_eq!(client.data_buf_count(), 4);
    assert_eq!(client.data_buf_size(), 4096 * 128);
    assert_eq!(client.header_buf_count(), 8);
    assert_eq!(client.header_buf_size(), 4096);
    assert_eq!(client.key(), 2);
    assert!(client.allocated());
    assert!(matches!(
        DadaClientBuilder::new(2).build_with_page_size(u64::MAX),
        Err(PsrdadaError::DadaInitError)
    ));
}
