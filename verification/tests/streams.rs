use squiggler::event::rows;
use squiggler::filter::{clipping, clipping_with_draws};
use squiggler::prediction::{parse, Signal};
use squiggler::field::line_fields;
use squiggler::text::{first_char, lines, split, starts_with};
use squiggler::{fields, Binary32, Field};

fn num(x: f32) -> Binary32 {
    Binary32::from_bits(x.to_bits())
}

fn converted(text: &str) -> Vec<Vec<Field>> {
    let mut lines = fields(text);
    for line in lines.iter_mut() {
        for field in line.iter_mut() {
            field.number = field.text.parse::<f32>().ok().map(num);
        }
    }
    lines
}

fn samples() -> Vec<f32> {
    vec![
        0.0,
        -0.0,
        1.0,
        -1.0,
        0.5,
        0.99999994,
        1.0000001,
        f32::MIN_POSITIVE,
        -f32::MIN_POSITIVE,
        1.0e-45,
        -1.0e-45,
        f32::MAX,
        f32::MIN,
        f32::INFINITY,
        f32::NEG_INFINITY,
        f32::NAN,
        -f32::NAN,
        f32::from_bits(0x7F80_0001),
        f32::from_bits(0xFFFF_FFFF),
        3.25,
        -3.25,
        123456.79,
        -0.001,
    ]
}

#[test]
fn less_than_is_the_order_of_the_numbers() {
    for a in samples() {
        for b in samples() {
            assert_eq!(num(a).less_than(num(b)), a < b, "{} < {}", a, b);
        }
    }
}

#[test]
fn less_than_follows_the_numbers_over_many_patterns() {
    let mut bits: u32 = 0x1234_5678;
    let mut patterns = vec![];
    for _ in 0..300 {
        bits = bits.wrapping_mul(1_664_525).wrapping_add(1_013_904_223);
        patterns.push(bits);
    }
    for &a in &patterns {
        for &b in &patterns {
            let expected = f32::from_bits(a) < f32::from_bits(b);
            assert_eq!(Binary32::from_bits(a).less_than(Binary32::from_bits(b)), expected);
        }
    }
}

#[test]
fn zero_and_one() {
    assert_eq!(Binary32::zero().to_bits(), 0.0f32.to_bits());
    assert_eq!(Binary32::one().to_bits(), 1.0f32.to_bits());
    assert_eq!(Binary32::from_bits(7).to_bits(), 7);
}

#[test]
fn clipping_keeps_what_draws_below_the_probability() {
    let mut events = vec!['a', 'b', 'c', 'd', 'e'];
    let draws = vec![num(0.1), num(0.5), num(0.49), num(0.0), num(0.75)];
    clipping_with_draws(&mut events, &draws, num(0.5));
    assert_eq!(events, vec!['a', 'c', 'd']);
}

#[test]
fn clipping_with_draws_and_zero_leaves_nothing() {
    let mut events = vec![1.5f32, 2.5, 3.5];
    let draws = vec![num(0.0), num(0.5), num(0.99999994)];
    clipping_with_draws(&mut events, &draws, num(0.0));
    assert_eq!(events, Vec::<f32>::new());
}

#[test]
fn clipping_with_draws_and_one_leaves_all() {
    let mut events = vec![1.5f32, 2.5, 3.5];
    let draws = vec![num(0.0), num(0.5), num(0.99999994)];
    clipping_with_draws(&mut events, &draws, num(1.0));
    assert_eq!(events, vec![1.5, 2.5, 3.5]);
}

#[test]
fn clipping_with_no_number_leaves_nothing() {
    let mut events = vec![String::from("x"), String::from("y")];
    let draws = vec![num(0.0), num(0.5), num(0.25)];
    clipping_with_draws(&mut events, &draws, num(f32::NAN));
    assert_eq!(events, Vec::<String>::new());
    let mut none: Vec<u8> = vec![];
    clipping_with_draws(&mut none, &draws, num(1.0));
    assert_eq!(none, Vec::<u8>::new());
}

#[test]
fn clipping_with_zero_leaves_nothing() {
    let mut events: Vec<u32> = (0..1000).collect();
    clipping(&mut events, num(0.0));
    assert_eq!(events, Vec::<u32>::new());
}

#[test]
fn clipping_with_one_leaves_all() {
    let mut events: Vec<u32> = (0..1000).collect();
    clipping(&mut events, num(1.0));
    assert_eq!(events, (0..1000).collect::<Vec<u32>>());
}

#[test]
fn clipping_beyond_zero_and_one() {
    for prob in [-0.0, -0.5, f32::NEG_INFINITY, f32::NAN] {
        let mut events: Vec<u32> = (0..500).collect();
        clipping(&mut events, num(prob));
        assert_eq!(events, Vec::<u32>::new(), "{}", prob);
    }
    for prob in [1.0000001, 2.5, f32::INFINITY] {
        let mut events: Vec<u32> = (0..500).collect();
        clipping(&mut events, num(prob));
        assert_eq!(events, (0..500).collect::<Vec<u32>>(), "{}", prob);
    }
}

#[test]
fn clipping_thins_out_in_order() {
    let mut events: Vec<u32> = (0..20000).collect();
    clipping(&mut events, num(0.5));
    // Ten thousand are expected to stay, give or take some seventy.
    assert!(events.len() > 8000 && events.len() < 12000, "{} stay", events.len());
    assert!(events.windows(2).all(|pair| pair[0] < pair[1]));
    assert!(events.iter().all(|&e| e < 20000));
}

#[test]
fn rows_start_where_the_rows_before_end() {
    let events = vec![
        (7, 3, num(1.0), num(0.5)),
        (7, 10, num(2.0), num(0.25)),
        (0, 0, num(3.0), num(0.125)),
        (9, 4, num(4.0), num(0.0)),
    ];
    assert_eq!(
        rows(&events),
        vec![
            (0, 3, num(1.0), num(0.5)),
            (3, 10, num(2.0), num(0.25)),
            (13, 0, num(3.0), num(0.125)),
            (13, 4, num(4.0), num(0.0)),
        ]
    );
    assert_eq!(rows(&vec![]), vec![]);
    // The time after the last row need not fit.
    let long = vec![(0, u32::MAX, num(1.0), num(1.0)), (0, 5, num(2.0), num(2.0))];
    assert_eq!(rows(&long)[1].0, u32::MAX);
}

#[test]
fn prediction_rows_in_order() {
    let text = "#pos\tbase\tcurrent\tsd\tdwell\n0\tA\t80.5\t1.25\t9\n1\tCG\t-0.5\t2\t1e1\textra\n";
    let signals = parse(&converted(text));
    assert_eq!(
        signals,
        vec![
            Signal::new('A', num(80.5), num(1.25), num(9.0)),
            Signal::new('C', num(-0.5), num(2.0), num(10.0)),
        ]
    );
}

#[test]
fn prediction_line_with_bad_number_is_dropped() {
    let text = "#c\n0\tA\t80.5\t1.25\t9\n1\tC\tbad\t2\t10\n2\tG\t70\t1\t8\n";
    let lines = converted(text);
    let data = lines.iter().filter(|l| !l[0].text.starts_with('#')).count();
    let signals = parse(&lines);
    assert_eq!(data, 3);
    assert_eq!(signals.len(), data - 1);
    assert_eq!(signals[0].base, 'A');
    assert_eq!(signals[1].base, 'G');
}

#[test]
fn prediction_drops_what_gives_no_signal() {
    assert_eq!(parse(&converted("")), vec![]);
    assert_eq!(parse(&converted("#only\n#comments\n")), vec![]);
    // no base, a field too few, an empty line, a number with a blank
    assert_eq!(parse(&converted("0\t\t1\t2\t3\n")), vec![]);
    assert_eq!(parse(&converted("0\tA\t1\t2\n")), vec![]);
    assert_eq!(parse(&converted("\n\n")), vec![]);
    assert_eq!(parse(&converted("0\tA\t1\t2\t3 \n")), vec![]);
    // a comment sign later in the line opens no comment
    assert_eq!(
        parse(&converted(" #\t#\t1\t2\t3\n")),
        vec![Signal::new('#', num(1.0), num(2.0), num(3.0))]
    );
    // a base beyond ASCII
    assert_eq!(
        parse(&converted("0\t\u{e9}t\u{e9}\t1\t2\t3")),
        vec![Signal::new('\u{e9}', num(1.0), num(2.0), num(3.0))]
    );
}

#[test]
fn split_gives_one_piece_more_than_separators() {
    assert_eq!(split("", b'\t'), vec![""]);
    assert_eq!(split("a", b'\t'), vec!["a"]);
    assert_eq!(split("a\tbc\t", b'\t'), vec!["a", "bc", ""]);
    assert_eq!(split("\t\t", b'\t'), vec!["", "", ""]);
    assert_eq!(split("\u{e9}t\u{e9}\t\u{1f600}\t", b'\t'), vec!["\u{e9}t\u{e9}", "\u{1f600}", ""]);
    for text in ["", "\n", "a\nb", "\u{e9}\n\n\u{4e2d}\u{6587}\n", "\n\n\n", "x\ny\n"] {
        let expected: Vec<&str> = text.split('\n').collect();
        assert_eq!(split(text, b'\n'), expected, "{:?}", text);
    }
}

#[test]
fn first_character_of_a_text() {
    assert_eq!(first_char(""), None);
    assert_eq!(first_char("A"), Some('A'));
    assert_eq!(first_char("CG"), Some('C'));
    assert_eq!(first_char("\u{e9}t\u{e9}"), Some('\u{e9}'));
    assert_eq!(first_char("\u{4e2d}\u{6587}"), Some('\u{4e2d}'));
    assert_eq!(first_char("\u{1f600}!"), Some('\u{1f600}'));
}

#[test]
fn lines_end_at_line_feeds() {
    assert_eq!(lines(""), Vec::<&str>::new());
    assert_eq!(lines("\n"), vec![""]);
    assert_eq!(lines("a\nb"), vec!["a", "b"]);
    assert_eq!(lines("a\nb\n"), vec!["a", "b"]);
    assert_eq!(lines("a\r\n\r\nb\r"), vec!["a", "", "b\r"]);
    assert_eq!(lines("a\r\r\n"), vec!["a\r"]);
    assert_eq!(lines("a\n\n"), vec!["a", ""]);
    for text in
        ["", "\n", "a\nb", "a\r\nb\r\n", "\r", "x\r\n\r\ny\r", "\n\n\r\n", "\u{e9}\r\n\u{4e2d}"]
    {
        let expected: Vec<&str> = text.lines().collect();
        assert_eq!(lines(text), expected, "{:?}", text);
    }
}

#[test]
fn fields_are_cut_with_numbers_open() {
    let table = fields("a\tb\n\tc\r\n");
    assert_eq!(table.len(), 2);
    let texts: Vec<Vec<&str>> =
        table.iter().map(|l| l.iter().map(|f| &f.text[..]).collect()).collect();
    assert_eq!(texts, vec![vec!["a", "b"], vec!["", "c"]]);
    for line in &table {
        for field in line {
            assert_eq!(field.number, None);
        }
    }
    let row = line_fields("1.5\tx\t");
    assert_eq!(row.len(), 3);
    assert_eq!(row[0].text, "1.5");
    assert_eq!(row[2].text, "");
}

#[test]
fn starts_with_compares_the_first_bytes() {
    assert!(starts_with(b"kmer\tx", b"kmer"));
    assert!(starts_with(b"kmer", b"kmer"));
    assert!(starts_with(b"kmer", b""));
    assert!(!starts_with(b"kme", b"kmer"));
    assert!(!starts_with(b"kmEr", b"kmer"));
}
