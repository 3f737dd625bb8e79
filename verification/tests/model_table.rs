use squiggler::fasta::sequence;
use squiggler::kmer::{kmer_with_index, pack, unpack};
use squiggler::{fields, Binary32, Field, SignalModel, Squiggler, SquigglerError};

fn num(x: f32) -> Binary32 {
    Binary32::from_bits(x.to_bits())
}

fn val(x: Binary32) -> f32 {
    f32::from_bits(x.to_bits())
}

/// Fills in the number of each field, as a reader of a source does.
fn converted(text: &str) -> Vec<Vec<Field>> {
    let mut lines = fields(text);
    for line in lines.iter_mut() {
        for field in line.iter_mut() {
            field.number = field.text.parse::<f32>().ok().map(num);
        }
    }
    lines
}

fn kmer_text(index: usize) -> String {
    String::from_utf8(kmer_with_index(index)).unwrap()
}

fn level_mean(index: usize) -> f32 {
    60.0 + index as f32 * 0.015625
}

fn row(kmer: &str, index: usize) -> String {
    format!(
        "{}\t{}\t{}\t{}\t{}\t{}\n",
        kmer,
        level_mean(index),
        1.5 + (index % 7) as f32 * 0.25,
        0.75 + (index % 5) as f32 * 0.125,
        0.25,
        index
    )
}

/// A model source with a header and one row for each k-mer but those left out.
fn model_text(skip: Option<usize>) -> String {
    let mut text = String::from("kmer\tlevel_mean\tlevel_stdv\tsd_mean\tsd_stdv\tweight\n");
    for index in 0..4096 {
        if Some(index) != skip {
            text.push_str(&row(&kmer_text(index), index));
        }
    }
    text
}

fn load(text: &str) -> Result<Squiggler, SquigglerError> {
    Squiggler::new(&converted(text))
}

fn full_model() -> Squiggler {
    load(&model_text(None)).unwrap()
}

#[test]
fn test_of_test() {
    assert!(true);
}

#[test]
fn squiggler_init2() {
    // Of a file that is not there no line can be read.
    let path = "not/existing/file";
    let read: Vec<Vec<Field>> = vec![];
    match Err::<Squiggler, SquigglerError>(Squiggler::failure_after(&read)) {
        Ok(_) => assert!(false, "{}", path),
        Err(e) => assert!(e == SquigglerError::IoError, "{}", path),
    }
}

#[test]
fn squiggler_init3() {
    // not valid data type
    let mut text = model_text(Some(17));
    text.push_str("AAACAC\tsixty\t1.5\t0.75\t0.25\t17\n");
    match load(&text) {
        Ok(_) => assert!(false),
        Err(_) => assert!(true),
    }
}

#[test]
fn squiggler_init4() {
    //model that doen't contain enough data
    match load(&model_text(Some(4095))) {
        Ok(_) => assert!(false),
        Err(_) => assert!(true),
    }
}

#[test]
fn squiggler_init5() {
    let model = full_model();
    assert_eq!(model.get_size(), 4 * 4 * 4 * 4 * 4 * 4);
}

#[test]
fn squiggler_getsignal() {
    let model = full_model();
    assert!(model.can_generate(">test of fasta\nAAAAAA"));
    assert_eq!(model.get_signal_from_fasta(">test of fasta\nAAAAAA").len(), 1);
}

#[test]
fn squiggler_getsignal2() {
    let model = full_model();
    assert!(model.can_generate(">test of fasta\nAAAAAAAAAAAA"));
    assert_eq!(model.get_signal_from_fasta(">test of fasta\nAAAAAAAAAAAA").len(), 7);
}

#[test]
fn signal_mode_init() {
    let _sm = SignalModel::new(num(0.), num(0.), num(0.), num(0.));
    assert!(true);
}

#[test]
fn signal_mode_levelmeancheck() {
    let sm = SignalModel::new(num(10.), num(0.), num(0.), num(0.));
    assert_eq!(val(sm.generate().2), 10.);
}

#[test]
fn signal_mode_levelstddevcheck() {
    let sm = SignalModel::new(num(1.), num(0.), num(0.), num(0.));
    assert!(val(sm.generate().2) - 1. < 0.1, "{:?}", sm.generate());
}

#[test]
fn signal_mode_noisemeancheck() {
    let _sm = SignalModel::new(num(0.), num(1.), num(0.), num(0.));
    assert!(true);
}

#[test]
fn signal_mode_noisesdtvcheck() {
    assert!(true);
}

#[test]
fn final_check() {
    let text = model_text(None);
    let model = load(&text).unwrap();
    for line in text.lines().skip(1) {
        let content: Vec<_> = line.split('\t').collect();
        let mer = content[0];
        let mean: f32 = content[1].parse().unwrap();
        assert!(model.can_generate(mer));
        assert!(
            val(model.get_signal_from_fasta(mer)[0].2) == mean,
            "{}{:?}vs {}",
            mer,
            content,
            val(model.get_signal_from_fasta(mer)[0].2)
        );
    }
}

#[test]
fn model_generates_its_own_event() {
    let sm = SignalModel::new(num(81.25), num(2.5), num(1.125), num(0.5));
    assert_eq!(sm.generate(), (0, 3, num(81.25), num(1.125)));
    assert_eq!(sm.getmean(), num(81.25));
}

#[test]
fn full_model_has_every_kmer_once() {
    let model = full_model();
    let mut kmers = model.get_all_kmer();
    kmers.sort();
    assert_eq!(kmers.len(), 4096);
    for index in 0..4096 {
        assert_eq!(kmers[index], kmer_with_index(index));
    }
}

#[test]
fn header_anywhere_is_passed_over() {
    let mut text = model_text(None);
    text.push_str("kmer_again\tnot\ta\trow\n");
    let model = load(&text).unwrap();
    assert_eq!(model.get_size(), 4096);
}

#[test]
fn lookup_gives_the_row_of_the_kmer() {
    let model = full_model();
    let found = model.get(b"ACGTAC").unwrap();
    let index = 0 * 1024 + 1 * 256 + 2 * 64 + 3 * 16 + 0 * 4 + 1;
    assert_eq!(kmer_with_index(index), b"ACGTAC".to_vec());
    assert_eq!(val(found.level_mean), level_mean(index));
    assert_eq!(val(found.level_stdv), 1.5 + (index % 7) as f32 * 0.25);
    assert_eq!(val(found.sd_mean), 0.75 + (index % 5) as f32 * 0.125);
    assert_eq!(val(found.sd_stdv), 0.25);
    assert_eq!(model.get(b"ACGTA"), None);
    assert_eq!(model.get(b"ACGTAN"), None);
    assert_eq!(model.get(b"ACGTACG"), None);
}

#[test]
fn duplicate_kmer_is_not_valid() {
    let mut text = model_text(None);
    text.push_str(&row("CCCCCC", 1));
    assert_eq!(load(&text).err(), Some(SquigglerError::NotValidModel));
    // The second of the two lines decides, also where the model is short.
    let short = format!("{}{}", row("ACGTAC", 1), row("ACGTAC", 2));
    assert_eq!(load(&short).err(), Some(SquigglerError::NotValidModel));
}

#[test]
fn missing_kmer_is_not_enough_data() {
    assert_eq!(load(&model_text(Some(0))).err(), Some(SquigglerError::NotEnoughData));
    assert_eq!(load(&model_text(Some(2049))).err(), Some(SquigglerError::NotEnoughData));
    assert_eq!(load("").err(), Some(SquigglerError::NotEnoughData));
    assert_eq!(
        load("kmer\tlevel_mean\tlevel_stdv\tsd_mean\tsd_stdv\n").err(),
        Some(SquigglerError::NotEnoughData)
    );
}

#[test]
fn other_text_of_kmer_length_does_not_stand_for_a_kmer() {
    // 4096 different keys, one of them over another alphabet.
    let mut text = model_text(Some(5));
    text.push_str(&row("NNNNNN", 5));
    assert_eq!(load(&text).err(), Some(SquigglerError::NotEnoughData));
    // All k-mers and one more key.
    let mut text = model_text(None);
    text.push_str(&row("NNNNNN", 5));
    let model = load(&text).unwrap();
    assert_eq!(model.get_size(), 4097);
    assert_eq!(val(model.get(b"NNNNNN").unwrap().level_mean), level_mean(5));
    assert!(model.can_generate("NNNNNN"));
    assert!(!model.can_generate("NNNNNNA"));
    assert_eq!(model.get_signal_from_fasta("NNNNNN")[0].2, num(level_mean(5)));
}

#[test]
fn line_that_does_not_convert_is_a_parse_error() {
    let parse_error = Some(SquigglerError::ParseError);
    // a number that is none
    assert_eq!(load("AAAAAA\t1.0\tx\t1.0\t1.0\n").err(), parse_error);
    assert_eq!(load("AAAAAA\t1.0\t1.0\t1.0\t\n").err(), parse_error);
    assert_eq!(load("AAAAAA\t1.0\t1.0\t 1.0\t1.0\n").err(), parse_error);
    // a field too few
    assert_eq!(load("AAAAAA\t1.0\t1.0\t1.0\n").err(), parse_error);
    assert_eq!(load("AAAAAA\n").err(), parse_error);
    // a blank line between rows
    assert_eq!(load("AAAAAA\t1\t1\t1\t1\n\nAAAAAC\t1\t1\t1\t1\n").err(), parse_error);
    // a k-mer of another length
    assert_eq!(load("AAAAA\t1\t1\t1\t1\n").err(), parse_error);
    assert_eq!(load("AAAAAAA\t1\t1\t1\t1\n").err(), parse_error);
    // the first line that cannot be taken decides
    assert_eq!(
        load("AAAAAA\t1\t1\t1\t1\nAAAAAA\t1\t1\t1\t1\nAAAAAC\tx\t1\t1\t1\n").err(),
        Some(SquigglerError::NotValidModel)
    );
    assert_eq!(
        load("AAAAAA\t1\t1\t1\t1\nAAAAAC\tx\t1\t1\t1\nAAAAAA\t1\t1\t1\t1\n").err(),
        parse_error
    );
    // a full model with one bad line after it
    let mut text = model_text(None);
    text.push_str("GGGGGG\t1\t1\t1\n");
    assert_eq!(load(&text).err(), parse_error);
}

#[test]
fn source_that_fails_gives_the_first_error() {
    let failure = |text: &str| Squiggler::failure_after(&converted(text));
    assert_eq!(failure(""), SquigglerError::IoError);
    assert_eq!(failure("kmer\tlevel_mean\nAAAAAA\t1\t1\t1\t1\n"), SquigglerError::IoError);
    assert_eq!(failure(&model_text(None)), SquigglerError::IoError);
    assert_eq!(failure("AAAAAA\t1\t1\t1\n"), SquigglerError::ParseError);
    assert_eq!(
        failure("AAAAAA\t1\t1\t1\t1\nAAAAAA\t1\t1\t1\t1\n"),
        SquigglerError::NotValidModel
    );
}

#[test]
fn carriage_returns_and_missing_last_line_feed_are_taken() {
    let text = model_text(None).replace('\n', "\r\n");
    assert_eq!(load(&text).unwrap().get_size(), 4096);
    let text = model_text(None);
    assert_eq!(load(text.trim_end()).unwrap().get_size(), 4096);
}

#[test]
fn events_follow_the_windows() {
    let model = full_model();
    let fasta = ">one\nACGTACG\n;between\nTT\n";
    assert_eq!(sequence(fasta), b"ACGTACGTT".to_vec());
    assert!(model.can_generate(fasta));
    let events = model.get_signal_from_fasta(fasta);
    let windows: [&[u8]; 4] = [b"ACGTAC", b"CGTACG", b"GTACGT", b"TACGTT"];
    assert_eq!(events.len(), 4);
    for (i, window) in windows.iter().enumerate() {
        let row = model.get(window).unwrap();
        assert_eq!(events[i], (3 * i as u32, 3, row.level_mean, row.sd_mean));
    }
    let models = model.matched_models(fasta);
    assert_eq!(models.len(), 4);
    for (i, window) in windows.iter().enumerate() {
        assert_eq!(Some(models[i]), model.get(window));
    }
    assert_eq!(model.convert(fasta), events);
}

#[test]
fn short_sequence_has_no_events() {
    let model = full_model();
    for fasta in ["", "A", "ACGTA", ">ACGTACGT\nACG\n;ACGTACGT", "ACG\nTA\n"] {
        assert!(model.can_generate(fasta));
        assert_eq!(model.get_signal_from_fasta(fasta), vec![]);
        assert_eq!(model.matched_models(fasta), vec![]);
        assert_eq!(model.convert(fasta), vec![]);
    }
}

#[test]
fn sequence_with_a_window_off_the_table_cannot_be_generated() {
    let model = full_model();
    assert!(!model.can_generate("ACGTNACGT"));
    assert!(!model.can_generate("ACGTAC\r\nACGTAC"));
    assert!(!model.can_generate("acgtac"));
    assert!(model.can_generate("ACGTN"));
}

#[test]
fn sequence_leaves_out_headers_and_comments_only() {
    assert_eq!(sequence(">h\nAC\n\nGT\n;c\n>h2\nTT"), b"ACGTTT".to_vec());
    assert_eq!(sequence(" >AC\nGT"), b" >ACGT".to_vec());
    assert_eq!(sequence("AC>GT;\n"), b"AC>GT;".to_vec());
    assert_eq!(sequence(">only a header"), Vec::<u8>::new());
    assert_eq!(sequence("AC\r\nGT"), b"AC\rGT".to_vec());
}

#[test]
fn codes_of_kmers() {
    assert_eq!(pack(b""), 0);
    assert_eq!(pack(b"A"), 0x41);
    assert_eq!(pack(b"ACGTAC"), 0x41_43_47_54_41_43);
    assert_eq!(unpack(0x41_43_47_54_41_43), b"ACGTAC".to_vec());
    assert_eq!(unpack(0), vec![0, 0, 0, 0, 0, 0]);
    assert_eq!(kmer_with_index(0), b"AAAAAA".to_vec());
    assert_eq!(kmer_with_index(1), b"AAAAAC".to_vec());
    assert_eq!(kmer_with_index(4), b"AAAACA".to_vec());
    assert_eq!(kmer_with_index(4095), b"TTTTTT".to_vec());
    assert_eq!(kmer_with_index(0b00_01_10_11_00_01), b"ACGTAC".to_vec());
}
