use kafka_oneshot::framer::Framer;

fn feed_all(framer: &mut Framer, input: &str) -> Vec<String> {
    let mut frames = Vec::new();
    for ch in input.chars() {
        if let Some(frame) = framer.feed(ch) {
            frames.push(frame);
        }
    }
    frames
}

#[test]
fn new_framer_holds_nothing() {
    let framer = Framer::new(64);
    assert_eq!(framer.pending_len(), 0);
    assert_eq!(framer.depth(), 0);
    assert_eq!(framer.limit(), 64);
    assert!(!framer.is_stuck());
}

#[test]
fn single_object_is_one_frame() {
    let mut framer = Framer::new(1024);
    let frames = feed_all(&mut framer, "{\"id\":\"42\",\"v\":1}");
    assert_eq!(frames, vec!["{\"id\":\"42\",\"v\":1}".to_string()]);
    assert_eq!(framer.pending_len(), 0);
    assert_eq!(framer.depth(), 0);
}

#[test]
fn frame_leaves_only_on_the_closing_brace() {
    let mut framer = Framer::new(1024);
    assert_eq!(framer.feed('{'), None);
    assert_eq!(framer.depth(), 1);
    assert_eq!(framer.feed('{'), None);
    assert_eq!(framer.depth(), 2);
    assert_eq!(framer.feed('}'), None);
    assert_eq!(framer.depth(), 1);
    assert_eq!(framer.pending_len(), 3);
    assert_eq!(framer.feed('}'), Some("{{}}".to_string()));
    assert_eq!(framer.depth(), 0);
    assert_eq!(framer.pending_len(), 0);
}

#[test]
fn blocks_separated_by_white_space_give_one_frame_each() {
    let blocks = ["{\"a\":1}", "{\"b\":{\"c\":2}}", "{}", "{\"d\":[{},{}]}"];
    let stream = format!("{}\n  {}\t{}\r\n\n{} \n", blocks[0], blocks[1], blocks[2], blocks[3]);
    let mut framer = Framer::new(1024);
    let frames = feed_all(&mut framer, &stream);
    assert_eq!(frames.len(), blocks.len());
    for (frame, block) in frames.iter().zip(blocks.iter()) {
        assert_eq!(frame.trim(), *block);
    }
    assert_eq!(frames[0], "{\"a\":1}");
    assert_eq!(frames[1], "\n  {\"b\":{\"c\":2}}");
    assert_eq!(frames[2], "\t{}");
    assert_eq!(frames[3], "\r\n\n{\"d\":[{},{}]}");
    assert_eq!(framer.pending_len(), 2);
    assert_eq!(framer.depth(), 0);
}

#[test]
fn white_space_alone_gives_no_frame() {
    let mut framer = Framer::new(1024);
    assert!(feed_all(&mut framer, " \n\t  \r\n").is_empty());
    assert_eq!(framer.pending_len(), 7);
    assert_eq!(framer.depth(), 0);
}

#[test]
fn leading_closing_brace_gives_no_frame() {
    let mut framer = Framer::new(1024);
    assert_eq!(framer.feed('}'), None);
    assert!(framer.is_stuck());
    assert_eq!(framer.depth(), -1);
    // The depth comes back to zero from below: no frame.
    assert_eq!(framer.feed('{'), None);
    assert!(!framer.is_stuck());
    assert_eq!(framer.depth(), 0);
    assert_eq!(framer.feed('}'), None);
    assert!(framer.is_stuck());
    assert_eq!(framer.pending_len(), 3);
}

#[test]
fn stuck_framer_never_frames_balanced_objects() {
    let mut framer = Framer::new(1024);
    let frames = feed_all(&mut framer, "} {\"a\":1} {\"b\":2} {\"c\":3}");
    assert!(frames.is_empty());
    assert!(framer.is_stuck());
    assert_eq!(framer.depth(), -1);
}

#[test]
fn frame_after_unbalanced_start_needs_a_positive_depth() {
    let mut framer = Framer::new(1024);
    let mut frames = feed_all(&mut framer, "}{");
    assert!(frames.is_empty());
    frames = feed_all(&mut framer, "{");
    assert!(frames.is_empty());
    assert_eq!(framer.depth(), 1);
    frames = feed_all(&mut framer, "}");
    assert_eq!(frames, vec!["}{{}".to_string()]);
}

#[test]
fn reset_recovers_a_stuck_framer() {
    let mut framer = Framer::new(1024);
    assert!(feed_all(&mut framer, "}} garbage").is_empty());
    assert!(framer.is_stuck());
    framer.reset();
    assert!(!framer.is_stuck());
    assert_eq!(framer.depth(), 0);
    assert_eq!(framer.pending_len(), 0);
    assert_eq!(framer.limit(), 1024);
    assert_eq!(feed_all(&mut framer, "{\"a\":1}"), vec!["{\"a\":1}".to_string()]);
}

#[test]
fn limit_drops_the_buffer_and_recovers() {
    let mut framer = Framer::new(4);
    assert_eq!(framer.feed('}'), None);
    assert_eq!(framer.feed('}'), None);
    assert_eq!(framer.feed('x'), None);
    assert_eq!(framer.pending_len(), 3);
    assert_eq!(framer.depth(), -2);
    // The fourth character fills the buffer: it is dropped.
    assert_eq!(framer.feed('y'), None);
    assert_eq!(framer.pending_len(), 0);
    assert_eq!(framer.depth(), 0);
    assert!(!framer.is_stuck());
    assert_eq!(feed_all(&mut framer, "{ }"), vec!["{ }".to_string()]);
}

#[test]
fn frame_as_long_as_the_limit_leaves() {
    let mut framer = Framer::new(4);
    assert_eq!(feed_all(&mut framer, "{ab}"), vec!["{ab}".to_string()]);
    assert_eq!(framer.pending_len(), 0);
}

#[test]
fn frame_longer_than_the_limit_is_lost() {
    let mut framer = Framer::new(4);
    // `{abc` fills the buffer and is dropped; `}` then arrives at depth zero.
    assert!(feed_all(&mut framer, "{abc}").is_empty());
    assert!(framer.is_stuck());
    assert_eq!(framer.pending_len(), 1);
}

#[test]
fn limit_of_zero_keeps_nothing() {
    let mut framer = Framer::new(0);
    assert!(feed_all(&mut framer, "{}{}").is_empty());
    assert_eq!(framer.pending_len(), 0);
    assert_eq!(framer.depth(), 0);
}

#[test]
fn long_white_space_is_dropped_at_the_limit_and_the_block_still_leaves() {
    let mut framer = Framer::new(4);
    // Six blanks: four are dropped at the limit, two stay in front of the block.
    let frames = feed_all(&mut framer, "      {}");
    assert_eq!(frames, vec!["  {}".to_string()]);
    assert_eq!(frames[0].trim(), "{}");
}

#[test]
fn text_outside_braces_stays_in_front_of_the_next_frame() {
    let mut framer = Framer::new(1024);
    let frames = feed_all(&mut framer, "abc{\"a\":1}");
    assert_eq!(frames, vec!["abc{\"a\":1}".to_string()]);
}

#[test]
fn braces_in_quotes_count_like_any_other() {
    let mut framer = Framer::new(1024);
    let frames = feed_all(&mut framer, "{\"a\":\"}\"}");
    assert_eq!(frames, vec!["{\"a\":\"}".to_string()]);
    assert!(framer.is_stuck());
}

#[test]
fn two_reads_give_one_frame() {
    let mut framer = Framer::new(1024);
    let first = framer.feed_chunk("{\"a\":{");
    assert!(first.is_empty());
    assert_eq!(framer.depth(), 2);
    assert_eq!(framer.pending_len(), 6);
    let second = framer.feed_chunk("}}");
    assert_eq!(second, vec!["{\"a\":{}}".to_string()]);
    assert_eq!(framer.depth(), 0);
    assert_eq!(framer.pending_len(), 0);
}

#[test]
fn feed_chunk_agrees_with_feed() {
    let stream = " {\"a\":1}\n{\"b\":{\"c\":2}} } {\"x\":0} {{}} tail";
    let mut by_char = Framer::new(16);
    let expected = feed_all(&mut by_char, stream);
    let mut by_chunk = Framer::new(16);
    assert_eq!(by_chunk.feed_chunk(stream), expected);
    assert_eq!(by_chunk.pending_len(), by_char.pending_len());
    assert_eq!(by_chunk.depth(), by_char.depth());
}

#[test]
fn frames_do_not_depend_on_where_the_stream_is_cut() {
    let stream = "{\"a\":1} \n {\"b\":{\"c\":\"é\"}}{}  } {\"lost\":1}";
    let chars: Vec<char> = stream.chars().collect();
    let mut whole = Framer::new(20);
    let expected = whole.feed_chunk(stream);
    assert_eq!(expected.len(), 3);
    for cut in 0..=chars.len() {
        let head: String = chars[..cut].iter().collect();
        let tail: String = chars[cut..].iter().collect();
        let mut framer = Framer::new(20);
        let mut frames = framer.feed_chunk(&head);
        frames.extend(framer.feed_chunk(&tail));
        assert_eq!(frames, expected, "cut at {}", cut);
        assert_eq!(framer.pending_len(), whole.pending_len());
        assert_eq!(framer.depth(), whole.depth());
    }
}

#[test]
fn every_frame_is_balanced_and_not_blank() {
    let mut framer = Framer::new(64);
    let frames = feed_all(&mut framer, " {a{b}c} x{}{ {} } }}{ {1}");
    assert!(!frames.is_empty());
    for frame in &frames {
        let opens = frame.chars().filter(|c| *c == '{').count();
        let closes = frame.chars().filter(|c| *c == '}').count();
        assert_eq!(opens, closes);
        assert!(frame.ends_with('}'));
        assert!(!frame.trim().is_empty());
    }
}
