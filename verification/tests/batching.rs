use inspect_commits::batch::LineBatcher;

/// Feeds `lines` and returns every chunk handed out, the last one included.
fn chunks(max: u32, lines: &[&str]) -> Vec<String> {
    let mut b = LineBatcher::new(max);
    let mut out = Vec::new();
    for l in lines {
        if let Some(c) = b.push_line(l) {
            out.push(c);
        }
    }
    if let Some(c) = b.finish() {
        out.push(c);
    }
    out
}

#[test]
fn lines_come_out_in_chunks_of_five() {
    let lines = ["1\n", "2\n", "3\n", "4\n", "5\n", "6\n", "7\n"];
    assert_eq!(chunks(5, &lines), vec!["1\n2\n3\n4\n5\n", "6\n7\n"]);
}

#[test]
fn full_last_chunk_is_not_repeated() {
    let lines = ["a\n", "b\n"];
    assert_eq!(chunks(2, &lines), vec!["a\nb\n"]);
    assert_eq!(chunks(1, &lines), vec!["a\n", "b\n"]);
}

#[test]
fn no_output_gives_no_chunk() {
    assert!(chunks(5, &[]).is_empty());
}

#[test]
fn zero_chunk_size_holds_everything_to_the_end() {
    let lines = ["a\n", "b\n", "c"];
    assert_eq!(chunks(0, &lines), vec!["a\nb\nc"]);
}

#[test]
fn no_text_is_lost() {
    let lines = ["x\n", "yy\n", "zzz\n", "w"];
    for max in 0..6 {
        let all: String = chunks(max, &lines).concat();
        assert_eq!(all, lines.concat());
    }
}

#[test]
fn chunk_is_handed_out_when_it_fills() {
    let mut b = LineBatcher::new(2);
    assert_eq!(b.push_line("a\n"), None);
    assert_eq!(b.push_line("b\n"), Some("a\nb\n".to_string()));
    assert_eq!(b.push_line("c\n"), None);
    assert_eq!(b.finish(), Some("c\n".to_string()));
}

#[test]
fn chunk_count_rounds_up() {
    let lines: Vec<String> = (0..11).map(|i| format!("{}\n", i)).collect();
    let refs: Vec<&str> = lines.iter().map(|s| s.as_str()).collect();
    let out = chunks(5, &refs);
    assert_eq!(out.len(), 3);
    assert_eq!(out[2], "10\n");
    assert_eq!(chunks(5, &refs[..10]).len(), 2);
}
