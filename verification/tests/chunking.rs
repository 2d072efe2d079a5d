use objstore::chunker::{split_body, BodyChunker, ChunkerStep};

fn body(len: usize) -> Vec<u8> {
    (0..len).map(|i| (i % 251) as u8).collect()
}

fn check_split(len: usize, block_size: usize, want: usize, last: usize) {
    let b = body(len);
    let blocks = split_body(&b, block_size);
    assert_eq!(blocks.len(), want);
    for (i, block) in blocks.iter().enumerate() {
        if i + 1 < blocks.len() {
            assert_eq!(block.len(), block_size);
        } else {
            assert_eq!(block.len(), last);
        }
    }
    assert_eq!(blocks.concat(), b);
}

#[test]
fn one_block_size_gives_one_block() {
    check_split(16, 16, 1, 16);
}

#[test]
fn two_block_sizes_give_two_blocks() {
    check_split(32, 16, 2, 16);
}

#[test]
fn three_block_sizes_give_three_blocks() {
    check_split(48, 16, 3, 16);
}

#[test]
fn ten_block_sizes_give_ten_blocks() {
    check_split(160, 16, 10, 16);
}

#[test]
fn a_remainder_gives_one_more_block_of_that_length() {
    check_split(3 * 16 + 5, 16, 4, 5);
    check_split(5, 16, 1, 5);
    check_split(10 * 7 + 6, 7, 11, 6);
}

#[test]
fn an_empty_body_has_no_block() {
    assert!(split_body(b"", 16).is_empty());
}

#[test]
fn a_block_size_of_zero_cuts_nothing() {
    assert!(split_body(b"abc", 0).is_empty());
}

#[test]
fn ten_bytes_in_blocks_of_four() {
    let blocks = split_body(b"abcdefghij", 4);
    assert_eq!(blocks, vec![b"abcd".to_vec(), b"efgh".to_vec(), b"ij".to_vec()]);
}

#[test]
fn chunker_asks_for_input_until_a_block_is_full() {
    let mut c = BodyChunker::new(4);
    assert!(c.wants_input());
    assert_eq!(c.next(), ChunkerStep::NeedInput);
    c.feed(b"ab");
    assert_eq!(c.buffered(), 2);
    assert_eq!(c.next(), ChunkerStep::NeedInput);
    c.feed(b"cde");
    assert!(!c.wants_input());
    assert_eq!(c.next(), ChunkerStep::Block(b"abcd".to_vec()));
    assert_eq!(c.buffered(), 1);
    assert_eq!(c.next(), ChunkerStep::NeedInput);
    c.finish();
    assert_eq!(c.next(), ChunkerStep::Block(b"e".to_vec()));
    assert_eq!(c.next(), ChunkerStep::Done);
    assert_eq!(c.next(), ChunkerStep::Done);
}

#[test]
fn chunker_output_does_not_depend_on_the_frames() {
    let b = body(53);
    let whole = split_body(&b, 8);
    for frame in [1usize, 3, 8, 13, 53] {
        let mut c = BodyChunker::new(8);
        let mut out: Vec<Vec<u8>> = Vec::new();
        let mut fed = 0;
        loop {
            match c.next() {
                ChunkerStep::NeedInput => {
                    if fed < b.len() {
                        let end = (fed + frame).min(b.len());
                        c.feed(&b[fed..end]);
                        fed = end;
                    } else {
                        c.finish();
                    }
                }
                ChunkerStep::Block(block) => out.push(block),
                ChunkerStep::Done => break,
            }
        }
        assert_eq!(out, whole);
    }
}

#[test]
fn chunker_buffer_stays_below_a_block_and_a_frame() {
    let mut c = BodyChunker::new(8);
    c.feed(&[0u8; 7]);
    assert!(c.wants_input());
    c.feed(&[0u8; 20]);
    assert!(c.buffered() < 8 + 20);
    assert_eq!(c.next(), ChunkerStep::Block(vec![0u8; 8]));
    assert_eq!(c.next(), ChunkerStep::Block(vec![0u8; 8]));
    assert_eq!(c.next(), ChunkerStep::Block(vec![0u8; 8]));
    assert_eq!(c.next(), ChunkerStep::NeedInput);
}

#[test]
fn an_empty_body_ends_at_once() {
    let mut c = BodyChunker::new(8);
    c.finish();
    assert_eq!(c.next(), ChunkerStep::Done);
}
