use maat_graphics::shader_handlers::font::{padding_size, FontValues, TextMaster, PAD_BOTTOM, PAD_LEFT, PAD_RIGHT, PAD_TOP};

#[test]
fn reads_values_of_a_line() {
    let mut v = FontValues::new();
    v.process_line(b"info face=\"Arial\" size=32 bold=0 padding=3,4,5,6 spacing=-5,-5");
    assert_eq!(v.get_values_of_variables(b"size"), vec![b"32".to_vec()]);
    assert_eq!(
        v.get_values_of_variables(b"padding"),
        vec![b"3".to_vec(), b"4".to_vec(), b"5".to_vec(), b"6".to_vec()]
    );
    assert_eq!(v.get_values_of_variables(b"face"), vec![b"\"Arial\"".to_vec()]);
    assert!(v.get_values_of_variables(b"info").is_empty());
    assert!(v.get_values_of_variables(b"missing").is_empty());
}

#[test]
fn later_values_replace_earlier_ones() {
    let mut v = FontValues::new();
    v.process_line(b"char id=65 x=10");
    v.process_line(b"char id=66 a=b=c");
    assert_eq!(v.get_values_of_variables(b"id"), vec![b"66".to_vec()]);
    assert_eq!(v.get_values_of_variables(b"x"), vec![b"10".to_vec()]);
    assert!(v.get_values_of_variables(b"a").is_empty());
    v.insert(b"x".to_vec(), b"1,,2".to_vec());
    assert_eq!(v.get_values_of_variables(b"x"), vec![b"1".to_vec(), b"".to_vec(), b"2".to_vec()]);
}

#[test]
fn padding_sums() {
    assert_eq!((PAD_TOP, PAD_LEFT, PAD_BOTTOM, PAD_RIGHT), (0, 1, 2, 3));
    assert_eq!(padding_size(&vec![3, 4, 5, 6]), (4 + 6, 3 + 5));
}

fn texts(m: &TextMaster<u32>) -> Vec<(String, u32)> {
    m.text().clone()
}

#[test]
fn undrawn_text_waits_then_is_dropped() {
    let mut m: TextMaster<u32> = TextMaster::new();
    m.push_text("score".to_string(), 1);
    m.push_text("lives".to_string(), 2);
    m.push_text("title".to_string(), 3);
    let dropped = m.remove_unused_text(&vec!["lives".to_string()]);
    assert!(dropped.is_empty());
    assert_eq!(texts(&m), vec![("lives".to_string(), 2)]);
    assert_eq!(
        m.unused_text().clone(),
        vec![(("title".to_string(), 3), 0), (("score".to_string(), 1), 0)]
    );
    for _ in 0..600 {
        let dropped = m.remove_unused_text(&vec!["lives".to_string()]);
        assert!(dropped.is_empty());
    }
    assert_eq!(m.unused_text()[0].1, 600);
    let dropped = m.remove_unused_text(&vec!["lives".to_string()]);
    assert_eq!(dropped, vec![1, 3]);
    assert!(m.unused_text().is_empty());
    assert_eq!(texts(&m), vec![("lives".to_string(), 2)]);
}

#[test]
fn waiting_text_is_shown_again() {
    let mut m: TextMaster<u32> = TextMaster::new();
    m.push_text("a".to_string(), 10);
    m.remove_unused_text(&Vec::new());
    assert!(m.text().is_empty());
    m.revive_unused(0);
    assert_eq!(texts(&m), vec![("a".to_string(), 10)]);
    *m.text_payload_mut(0) = 11;
    assert_eq!(texts(&m), vec![("a".to_string(), 11)]);
    assert_eq!(m.remove_text_at(0), ("a".to_string(), 11));
}

#[test]
fn remove_all_gives_back_last_first() {
    let mut m: TextMaster<u32> = TextMaster::new();
    m.push_text("a".to_string(), 1);
    m.push_text("b".to_string(), 2);
    m.push_text("c".to_string(), 3);
    assert_eq!(m.remove_all_text(), vec![3, 2, 1]);
    assert!(m.text().is_empty());
}

#[test]
fn ending_a_frame_loses_no_text() {
    let mut m: TextMaster<u32> = TextMaster::new();
    for (i, name) in ["a", "b", "c", "d"].iter().enumerate() {
        m.push_text(name.to_string(), i as u32);
    }
    let mut handed_back = 0;
    for frame in 0..700 {
        let drawn = if frame % 2 == 0 { vec!["a".to_string()] } else { vec!["a".to_string(), "b".to_string()] };
        handed_back += m.remove_unused_text(&drawn).len();
        assert_eq!(m.text().len() + m.unused_text().len() + handed_back, 4);
        if frame == 10 {
            let i = m.unused_text().iter().position(|((n, _), _)| n == "b").unwrap();
            m.revive_unused(i);
        }
    }
}
