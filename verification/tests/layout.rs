use pdf_shape::alignment::classify_frames;
use pdf_shape::frame::{frames_base, frames_height, frames_width, largest, smallest};
use pdf_shape::sets::{set_bold, set_font_size, set_height, set_horizontal_spacing, set_width};
use pdf_shape::spacing::{
    frames_horizontal_spacing, frames_vertical_spacing, on_same_line, positive_values,
    round_to_point, spacing_mode,
};
use pdf_shape::style::{common_flag, common_size, mean_size};
use pdf_shape::traits::{frame_of, frames_of};
use pdf_shape::{
    Alignement, Block, Coordinates, DeserizalizationTokens, Document, Frame, ObjectAlignement,
    Shape, Spacing, Style, Text, Token, Tokens,
};

fn token(x: i32, y: i32, base: i32, width: i32, height: i32) -> Token {
    Token {
        sid: None,
        id: String::from("t"),
        font_name: None,
        bold: false,
        italic: false,
        font_color: String::from("#000000"),
        font_size: 12000,
        rotation: 0,
        angle: 0,
        x,
        y,
        base,
        width,
        height,
        value: None,
    }
}

fn styled(font_size: u32, bold: bool, italic: bool) -> Token {
    let mut t = token(0, 0, 0, 0, 0);
    t.font_size = font_size;
    t.bold = bold;
    t.italic = italic;
    t
}

fn named(id: &str, value: &str) -> Token {
    let mut t = token(0, 0, 0, 0, 0);
    t.id = String::from(id);
    t.value = Some(String::from(value));
    t
}

fn frame(x: i64, y: i64, base: i64, width: i64, height: i64) -> Frame {
    Frame { x, y, base, width, height }
}

#[test]
fn single_token_reports_its_fields() {
    let mut t = token(1000, 2000, 2500, 300, 400);
    t.rotation = 90;
    t.angle = 45;
    t.bold = true;
    assert_eq!(t.x(), 1000);
    assert_eq!(t.y(), 2000);
    assert_eq!(t.base(), 2500);
    assert_eq!(t.width(), 300);
    assert_eq!(t.height(), 400);
    assert_eq!(t.rotation(), Some(90));
    assert_eq!(t.angle(), Some(45));
    assert_eq!(t.font_size(), Some(12000));
    assert_eq!(t.avg_font_size(), Some(12000));
    assert_eq!(t.bold(), Some(true));
    assert_eq!(t.italic(), Some(false));
    assert_eq!(t.font_color(), Some(String::from("#000000")));
    assert_eq!(frame_of(&t), frame(1000, 2000, 2500, 300, 400));
}

#[test]
fn smallest_and_largest_of_values() {
    assert_eq!(smallest(&vec![]), 0);
    assert_eq!(largest(&vec![]), 0);
    assert_eq!(smallest(&vec![5, -3, 9]), -3);
    assert_eq!(largest(&vec![5, -3, 9]), 9);
    assert_eq!(smallest(&vec![7]), 7);
    assert_eq!(largest(&vec![-7]), -7);
}

#[test]
fn bounding_box_of_three_tokens() {
    let a = token(10000, 50000, 58000, 20000, 10000);
    let b = token(5000, 70000, 78000, 10000, 12000);
    let c = token(40000, 60000, 68000, 30000, 8000);
    let set = Tokens { tokens: vec![&a, &b, &c] };
    // from x = 5 to x = 70
    assert_eq!(set.width(), 65000);
    // from y - height = 40 to y = 70
    assert_eq!(set.height(), 30000);
    assert_eq!(set.rotation(), None);
    assert_eq!(set.angle(), None);
    assert_eq!(set_width(&set.tokens), 65000);
    assert_eq!(set_height(&set.tokens), 30000);
    assert_eq!(set.tokens.width(), 65000);
    assert_eq!(set.tokens.height(), 30000);
}

#[test]
fn bounding_box_contains_every_member() {
    let a = token(10000, 50000, 58000, 20000, 10000);
    let b = token(5000, 70000, 78000, 10000, 12000);
    let c = token(40000, 60000, 68000, 30000, 8000);
    let members = vec![&a, &b, &c];
    let frames = frames_of(&members);
    let width = frames_width(&frames);
    let height = frames_height(&frames);
    let left = frames.iter().map(|f| f.x).min().unwrap();
    let top = frames.iter().map(|f| f.y).max().unwrap();
    for f in frames.iter() {
        assert!(f.x >= left);
        assert!(f.x + f.width <= left + width);
        assert!(f.y <= top);
        assert!(f.y - f.height >= top - height);
    }
    assert!(frames.iter().any(|f| f.x + f.width == left + width));
    assert!(frames.iter().any(|f| f.y - f.height == top - height));
}

#[test]
fn bounding_box_does_not_depend_on_order() {
    let a = frame(10, 50, 58, 20, 10);
    let b = frame(5, 70, 78, 10, 12);
    let c = frame(40, 60, 68, 30, 8);
    assert_eq!(frames_width(&vec![a, b, c]), frames_width(&vec![c, a, b]));
    assert_eq!(frames_height(&vec![a, b, c]), frames_height(&vec![b, c, a]));
}

#[test]
fn anchor_of_a_set_is_its_first_token() {
    let a = token(10000, 50000, 58000, 20000, 10000);
    let b = token(5000, 70000, 48000, 10000, 12000);
    let set = Tokens { tokens: vec![&a, &b] };
    assert_eq!(set.x(), 10000);
    assert_eq!(set.y(), 50000);
    assert_eq!(set.base(), 48000);
    assert_eq!(frames_base(&vec![frame(0, 0, 9, 0, 0), frame(0, 0, 4, 0, 0)]), 4);
}

#[test]
fn empty_set_has_defaults() {
    let set = Tokens { tokens: vec![] };
    assert_eq!(set.x(), 0);
    assert_eq!(set.y(), 0);
    assert_eq!(set.base(), 0);
    assert_eq!(set.width(), 0);
    assert_eq!(set.height(), 0);
    assert_eq!(set.font_size(), None);
    assert_eq!(set.avg_font_size(), None);
    assert_eq!(set.bold(), None);
    assert_eq!(set.italic(), None);
    assert_eq!(set.font_color(), None);
    assert_eq!(set.vertical_spacing(), Vec::<i64>::new());
    assert_eq!(set.horizontal_spacing(), Vec::<i64>::new());
    assert_eq!(set.mode_vertical_spacing(), None);
    assert_eq!(set.mode_horizontal_spacing(), None);
    assert!(set.first_token().is_none());
    assert!(set.last_token().is_none());
    assert!(set.widest_token().is_none());
    let reference = token(0, 0, 0, 0, 0);
    let nothing: Vec<&Token> = vec![];
    assert!(reference.alignement(nothing) == ObjectAlignement::NonAligned);
}

#[test]
fn three_bold_tokens_are_bold() {
    let a = styled(12000, true, false);
    let b = styled(12000, true, false);
    let c = styled(12000, true, true);
    let set = Tokens { tokens: vec![&a, &b, &c] };
    assert_eq!(set.bold(), Some(true));
    assert_eq!(set.italic(), None);
    assert_eq!(set.font_size(), Some(12000));
    assert_eq!(set.font_color(), None);
    assert_eq!(set_bold(&set.tokens), Some(true));
    assert_eq!(set.tokens.bold(), Some(true));
}

#[test]
fn one_token_that_is_not_bold_makes_bold_unknown() {
    let a = styled(12000, true, false);
    let b = styled(12000, false, false);
    let c = styled(12000, true, false);
    let set = Tokens { tokens: vec![&a, &b, &c] };
    assert_eq!(set.bold(), None);
    assert_eq!(set.italic(), Some(false));
}

#[test]
fn differing_font_sizes_are_unknown() {
    let a = styled(12000, false, false);
    let b = styled(10000, false, false);
    let set = Tokens { tokens: vec![&a, &b] };
    assert_eq!(set.font_size(), None);
    assert_eq!(set.avg_font_size(), Some(11000));
    assert_eq!(set_font_size(&set.tokens), None);
}

#[test]
fn unknown_member_makes_the_set_unknown() {
    assert_eq!(common_size(&vec![None, Some(12), Some(12)]), None);
    assert_eq!(common_size(&vec![Some(12), None]), None);
    assert_eq!(common_size(&vec![Some(12), Some(12)]), Some(12));
    assert_eq!(common_size(&vec![]), None);
    assert_eq!(common_flag(&vec![Some(false), Some(false)]), Some(false));
    assert_eq!(common_flag(&vec![Some(false), Some(true)]), None);
    assert_eq!(common_flag(&vec![None]), None);
    assert_eq!(common_flag(&vec![]), None);
}

#[test]
fn mean_size_rounds_down_and_needs_every_size() {
    assert_eq!(mean_size(&vec![Some(10000), Some(11000)]), Some(10500));
    assert_eq!(mean_size(&vec![Some(10000), Some(10001)]), Some(10000));
    assert_eq!(mean_size(&vec![Some(7)]), Some(7));
    assert_eq!(mean_size(&vec![Some(10000), None]), None);
    assert_eq!(mean_size(&vec![]), None);
    assert_eq!(mean_size(&vec![Some(u64::MAX), Some(u64::MAX)]), Some(u64::MAX));
}

#[test]
fn same_y_wins_over_other_criteria() {
    let reference = frame(0, 10, 18, 10, 10);
    // same y, different x
    let other = frame(20, 10, 18, 10, 10);
    assert!(classify_frames(&reference, &vec![other]) == ObjectAlignement::HorizontalAligned);
    // same y and same x: still the first class
    let twin = frame(0, 10, 18, 10, 10);
    assert!(classify_frames(&reference, &vec![twin]) == ObjectAlignement::HorizontalAligned);
    let a = token(0, 10000, 18000, 10000, 10000);
    let b = token(20000, 10000, 18000, 10000, 10000);
    assert!(a.alignement(vec![&b]) == ObjectAlignement::HorizontalAligned);
}

#[test]
fn each_alignment_class() {
    let reference = frame(10, 0, 8, 20, 10);
    // centre at y = 5
    let centred = frame(50, 2, 8, 5, 6);
    assert!(
        classify_frames(&reference, &vec![centred]) == ObjectAlignement::HorizontalCenterAligned
    );
    let left = frame(10, 30, 38, 7, 10);
    assert!(classify_frames(&reference, &vec![left]) == ObjectAlignement::VerticalLeftAligned);
    // centre at x = 20
    let middle = frame(15, 30, 38, 10, 10);
    assert!(classify_frames(&reference, &vec![middle]) == ObjectAlignement::VerticalCenterAlgined);
    // right edge at x = 30
    let right = frame(25, 30, 38, 5, 10);
    assert!(classify_frames(&reference, &vec![right]) == ObjectAlignement::VerticalRightAlgined);
    let apart = frame(100, 30, 38, 5, 10);
    assert!(classify_frames(&reference, &vec![apart]) == ObjectAlignement::NonAligned);
    // every one of the others has to meet the criterion
    assert!(classify_frames(&reference, &vec![left, apart]) == ObjectAlignement::NonAligned);
    assert!(classify_frames(&reference, &vec![left, left]) == ObjectAlignement::VerticalLeftAligned);
    assert!(classify_frames(&reference, &vec![]) == ObjectAlignement::NonAligned);
}

#[test]
fn centres_are_compared_exactly() {
    // centres at 5 and at 5.5
    let reference = frame(0, 0, 0, 10, 10);
    let other = frame(50, 3, 0, 10, 5);
    assert!(classify_frames(&reference, &vec![other]) == ObjectAlignement::NonAligned);
    assert!(!on_same_line(&reference, &other));
    let level = frame(50, 3, 0, 10, 4);
    assert!(on_same_line(&reference, &level));
}

#[test]
fn a_set_can_be_the_reference() {
    let a = token(0, 10000, 18000, 10000, 10000);
    let b = token(20000, 10000, 18000, 10000, 10000);
    let c = token(50000, 10000, 18000, 10000, 10000);
    let set = Tokens { tokens: vec![&a, &b] };
    assert!(set.alignement(vec![&c]) == ObjectAlignement::HorizontalAligned);
}

#[test]
fn two_tokens_on_one_line_have_one_horizontal_gap() {
    let a = token(0, 0, 8000, 10000, 10000);
    let b = token(20000, 0, 8000, 10000, 10000);
    let set = Tokens { tokens: vec![&a, &b] };
    assert_eq!(set.horizontal_spacing(), vec![10000]);
    assert_eq!(set_horizontal_spacing(&set.tokens), vec![10000]);
    assert_eq!(set.tokens.horizontal_spacing(), vec![10000]);
    // one gap alone does not repeat
    assert_eq!(set.mode_horizontal_spacing(), None);
}

#[test]
fn repeated_horizontal_gap_is_the_mode() {
    let a = token(0, 0, 8000, 10000, 10000);
    let b = token(20000, 0, 8000, 10000, 10000);
    let c = token(40000, 0, 8000, 10000, 10000);
    let set = Tokens { tokens: vec![&a, &b, &c] };
    assert_eq!(set.horizontal_spacing(), vec![10000, 10000]);
    assert_eq!(set.mode_horizontal_spacing(), Some(10));
    assert_eq!(set.vertical_spacing(), Vec::<i64>::new());
    assert_eq!(set.mode_vertical_spacing(), None);
}

#[test]
fn same_line_gives_no_vertical_gap() {
    let a = token(0, 5000, 1000, 10000, 10000);
    let b = token(20000, 5000, 90000, 10000, 3000);
    let set = Tokens { tokens: vec![&a, &b] };
    assert_eq!(set.vertical_spacing(), Vec::<i64>::new());
    assert_eq!(set.mode_vertical_spacing(), None);
}

#[test]
fn lines_below_each_other_have_vertical_gaps() {
    let a = token(0, 0, 8000, 10000, 10000);
    let b = token(0, 20000, 28000, 10000, 10000);
    let c = token(0, 40000, 48000, 10000, 10000);
    let set = Tokens { tokens: vec![&a, &b, &c] };
    assert_eq!(set.vertical_spacing(), vec![12000, 12000]);
    assert_eq!(set.mode_vertical_spacing(), Some(12));
    assert_eq!(set.horizontal_spacing(), Vec::<i64>::new());
}

#[test]
fn vertical_gap_needs_a_baseline_above_the_last_gap() {
    // the baseline of the second frame, 10, is not above the gap recorded
    // before it, 15
    let frames = vec![
        frame(0, 0, 5, 10, 3),
        frame(0, 20, 10, 10, 4),
        frame(0, 40, 48, 10, 5),
    ];
    assert_eq!(frames_vertical_spacing(&frames), vec![15]);
    // a baseline that is not positive records nothing
    let frames = vec![frame(0, 0, 0, 10, 3), frame(0, 20, 28, 10, 4)];
    assert_eq!(frames_vertical_spacing(&frames), Vec::<i64>::new());
}

#[test]
fn gaps_that_are_not_positive_are_dropped() {
    // the second frame starts before the first ends
    let frames = vec![frame(0, 0, 8, 10, 10), frame(5, 0, 8, 10, 10), frame(30, 0, 8, 10, 10)];
    assert_eq!(frames_horizontal_spacing(&frames), vec![15]);
    // the second frame starts above the baseline of the first
    let frames = vec![frame(0, 10, 18, 10, 10), frame(0, 12, 30, 10, 11)];
    assert_eq!(frames_vertical_spacing(&frames), Vec::<i64>::new());
    assert_eq!(positive_values(&vec![3, 0, -2, 7]), vec![3, 7]);
}

#[test]
fn horizontal_gap_needs_a_right_edge_above_the_last_gap() {
    // right edges 10 and 12; the gap recorded first is 40
    let frames = vec![frame(0, 0, 8, 10, 10), frame(50, 0, 8, -38, 10), frame(60, 0, 8, 10, 10)];
    assert_eq!(frames_horizontal_spacing(&frames), vec![40]);
}

#[test]
fn rounding_to_points() {
    assert_eq!(round_to_point(0), 0);
    assert_eq!(round_to_point(499), 0);
    assert_eq!(round_to_point(500), 1);
    assert_eq!(round_to_point(1499), 1);
    assert_eq!(round_to_point(1500), 2);
    assert_eq!(round_to_point(-499), 0);
    assert_eq!(round_to_point(-500), -1);
    assert_eq!(round_to_point(-1499), -1);
    assert_eq!(round_to_point(-1500), -2);
    assert_eq!(round_to_point(i64::MAX), 9223372036854776);
    assert_eq!(round_to_point(i64::MIN), -9223372036854776);
}

#[test]
fn mode_of_rounded_spacing() {
    assert_eq!(spacing_mode(&vec![]), None);
    assert_eq!(spacing_mode(&vec![10000]), None);
    assert_eq!(spacing_mode(&vec![10000, 20000, 30000]), None);
    assert_eq!(spacing_mode(&vec![30000, 10000, 9800, 20000]), Some(10));
    assert_eq!(spacing_mode(&vec![12400, 3000, 11600, 12000]), Some(12));
    // two values that both occur twice: no mode
    assert_eq!(spacing_mode(&vec![10000, 10000, 20000, 20000]), None);
}

#[test]
fn mode_is_the_same_on_every_call() {
    let spacing = vec![30000, 10000, 9800, 20000, 20100, 20200];
    let first = spacing_mode(&spacing);
    assert_eq!(first, Some(20));
    assert_eq!(spacing_mode(&spacing), first);
    let frames = vec![frame(0, 0, 8, 10, 10), frame(20, 0, 8, 10, 10), frame(45, 0, 8, 10, 10)];
    assert_eq!(frames_horizontal_spacing(&frames), frames_horizontal_spacing(&frames));
    assert_eq!(frames_horizontal_spacing(&frames), vec![10, 15]);
}

#[test]
fn first_last_and_widest_token() {
    let a = token(0, 0, 0, 30, 0);
    let b = token(1, 0, 0, 50, 0);
    let c = token(2, 0, 0, 50, 0);
    let d = token(3, 0, 0, 10, 0);
    let set = Tokens { tokens: vec![&a, &b, &c, &d] };
    assert_eq!(set.first_token().unwrap().x, 0);
    assert_eq!(set.last_token().unwrap().x, 3);
    assert_eq!(set.widest_token().unwrap().x, 2);
}

fn sample_document() -> Document {
    let line = |id: &str, tokens: Vec<Token>| Text {
        x: 0,
        y: 0,
        id: String::from(id),
        width: 0,
        height: 0,
        tokens: DeserizalizationTokens::new(tokens),
    };
    let block = |id: &str, texts: Vec<Text>| Block {
        texts,
        id: String::from(id),
        x: 0,
        y: 0,
        height: None,
        width: Some(100),
    };
    Document::new(vec![
        block(
            "b1",
            vec![
                line("l1", vec![named("t1", "Hello"), named("t2", "world")]),
                line("l2", vec![]),
            ],
        ),
        block("b2", vec![]),
        block("b3", vec![line("l3", vec![named("t3", "again")])]),
    ])
}

#[test]
fn document_hands_out_its_blocks() {
    let document = sample_document();
    let ids: Vec<String> = document.get_blocks().iter().map(|b| b.id.clone()).collect();
    assert_eq!(ids, vec!["b1", "b2", "b3"]);
    let ids: Vec<String> = document.get_blocks_borrowed().iter().map(|b| b.id.clone()).collect();
    assert_eq!(ids, vec!["b1", "b2", "b3"]);
    assert_eq!(document.get_blocks()[0].texts.len(), 2);
    assert_eq!(document.get_blocks()[0].width, Some(100));
    assert_eq!(Document::new(vec![]).get_blocks().len(), 0);
}

#[test]
fn document_hands_out_its_texts_in_order() {
    let document = sample_document();
    let ids: Vec<String> = document.get_texts().iter().map(|t| t.id.clone()).collect();
    assert_eq!(ids, vec!["l1", "l2", "l3"]);
    let ids: Vec<String> = document.get_texts_borrowed().iter().map(|t| t.id.clone()).collect();
    assert_eq!(ids, vec!["l1", "l2", "l3"]);
    assert_eq!(document.get_texts()[0].tokens.0.len(), 2);
}

#[test]
fn document_hands_out_its_tokens_in_order() {
    let document = sample_document();
    let ids: Vec<String> = document.get_tokens().0.iter().map(|t| t.id.clone()).collect();
    assert_eq!(ids, vec!["t1", "t2", "t3"]);
    let ids: Vec<String> =
        document.get_fsm_tokens().tokens.iter().map(|t| t.id.clone()).collect();
    assert_eq!(ids, vec!["t1", "t2", "t3"]);
    assert_eq!(document.get_tokens().0[1].value, Some(String::from("world")));
    assert_eq!(Document::new(vec![]).get_fsm_tokens().tokens.len(), 0);
}

#[test]
fn tokens_are_joined_with_spaces() {
    let tokens = DeserizalizationTokens::new(vec![named("t1", "Hello"), named("t2", "world")]);
    assert_eq!(tokens.to_text(), "Hello world");
    let mut blank = named("t2", "");
    blank.value = None;
    let tokens =
        DeserizalizationTokens::new(vec![named("t1", "a"), blank, named("t3", "b")]);
    assert_eq!(tokens.to_text(), "a  b");
    assert_eq!(DeserizalizationTokens::new(vec![]).to_text(), "");
    assert_eq!(DeserizalizationTokens::new(vec![named("t1", "one")]).to_text(), "one");
    let tokens = DeserizalizationTokens::new(vec![named("t1", "a"), named("t2", "b")]);
    let ids: Vec<String> = tokens.into_vec().into_iter().map(|t| t.id).collect();
    assert_eq!(ids, vec!["t1", "t2"]);
}

#[test]
fn frames_are_read_in_order() {
    let a = token(1, 2, 3, 4, 5);
    let b = token(6, 7, 8, 9, 10);
    let frames = frames_of(&vec![&a, &b]);
    assert_eq!(frames, vec![frame(1, 2, 3, 4, 5), frame(6, 7, 8, 9, 10)]);
    assert!(frame(0, 0, 0, 1, 1).is_well_formed());
    assert!(!frame(0, 5, 4, 1, 1).is_well_formed());
    assert!(!frame(0, 0, 0, -1, 1).is_well_formed());
    let set = Tokens { tokens: vec![&a, &b] };
    assert_eq!(set.clone().into_vec().len(), 2);
}

#[test]
fn sets_of_sets_are_measured_like_sets() {
    let a = token(10000, 50000, 58000, 20000, 10000);
    let b = token(35000, 50000, 57000, 10000, 12000);
    let c = token(10000, 70000, 78000, 30000, 8000);
    let first_line = Tokens { tokens: vec![&a, &b] };
    let second_line = Tokens { tokens: vec![&c] };
    let lines = vec![&first_line, &second_line];
    assert_eq!(lines.x(), 10000);
    assert_eq!(lines.y(), 50000);
    assert_eq!(lines.base(), 57000);
    // from x = 10 to x = 45
    assert_eq!(lines.width(), 35000);
    // from y - height = 38 to y = 70
    assert_eq!(lines.height(), 32000);
    assert!(first_line.alignement(vec![&second_line]) == ObjectAlignement::VerticalLeftAligned);
    // the gap from the baseline of the first line to the top of the second
    assert_eq!(lines.vertical_spacing(), vec![13000]);
    let members = vec![&a, &b];
    assert_eq!(members.x(), 10000);
    assert_eq!(members.base(), 57000);
    assert!(members.alignement(vec![&c]) == ObjectAlignement::VerticalLeftAligned);
}

#[test]
fn mode_of_three_values_that_each_occur_twice() {
    // the scan over the sorted values keeps the run that it closes last
    assert_eq!(spacing_mode(&vec![1000, 1000, 2000, 2000, 3000, 3000]), Some(3));
}

#[test]
fn frames_within_the_coordinate_limit() {
    assert!(frame(0, -5, 7, 1, 1).is_in_bounds());
    assert!(frame(1 << 60, 0, 0, 0, 0).is_in_bounds());
    assert!(!frame((1 << 60) + 1, 0, 0, 0, 0).is_in_bounds());
    assert!(!frame(0, 0, 0, 0, i64::MIN).is_in_bounds());
}
