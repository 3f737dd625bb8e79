//! The table of k-mer models and the events it gives for a sequence.

use crate::event::{elapsed, rows, rows_of, Event};
use crate::fasta::{sequence, sequence_of, window, window_count};
use crate::field::Field;
use crate::loading::{
    failure_of, fails_with, header_word, is_complete, is_header, lemma_load_errors,
    lemma_scan_error_persists, loads_to, row_of, scanned, SquigglerError,
};
use crate::kmer::{
    index_of, is_nucleotide, is_nucleotide_kmer, kmer_with_index, lemma_index_of, lemma_limits,
    lemma_packed_below_limit, lemma_packed_injective, lemma_packed_unpacked,
    lemma_unpacked_packed, nth_kmer, pack, packed, unpack, unpacked, CODE_LIMIT, KMER_COUNT,
    KMER_SIZE,
};
use crate::model::{SignalModel, LENGTH};
use crate::text::starts_with;
use std::collections::HashMap;
use vstd::prelude::*;
use vstd::slice::{slice_subrange, slice_to_vec};
use vstd::std_specs::hash::spec_keys_iter;
use vstd::std_specs::iter::IteratorSpec;
use vstd::string::StringSliceAdditionalSpecFns;

verus! {

broadcast use vstd::std_specs::hash::group_hash_axioms;

/// The code under which a k-mer is kept.
spec fn code_of(kmer: Seq<u8>) -> u64 {
    packed(kmer) as u64
}

/// The table that a map from codes stands for.
spec fn table_of(codes: Map<u64, SignalModel>) -> Map<Seq<u8>, SignalModel> {
    Map::new(
        |kmer: Seq<u8>| kmer.len() == KMER_SIZE && codes.contains_key(code_of(kmer)),
        |kmer: Seq<u8>| codes[code_of(kmer)],
    )
}

/// Different k-mers have different codes, all below the limit.
proof fn lemma_codes(a: Seq<u8>, b: Seq<u8>)
    requires
        a.len() == KMER_SIZE,
        b.len() == KMER_SIZE,
    ensures
        packed(a) < CODE_LIMIT,
        code_of(a) == packed(a),
        code_of(a) == code_of(b) ==> a == b,
{
    lemma_limits();
    lemma_packed_below_limit(a);
    lemma_packed_below_limit(b);
    if code_of(a) == code_of(b) {
        lemma_packed_injective(a, b);
    }
}

/// The table of k-mer models.
#[derive(Debug)]
pub struct Squiggler {
    kmersize: usize,
    model: HashMap<u64, SignalModel>,
}

impl View for Squiggler {
    type V = Map<Seq<u8>, SignalModel>;

    closed spec fn view(&self) -> Map<Seq<u8>, SignalModel> {
        table_of(self.model@)
    }
}

/// Tells whether a line names the columns.
fn is_header_line(line: &Vec<Field>) -> (r: bool)
    ensures
        r == is_header(line.deep_view()),
{
    if line.len() == 0 {
        return false;
    }
    let word: [u8; 4] = [0x6B, 0x6D, 0x65, 0x72];
    assert(word@ =~= header_word());
    let text = line[0].text.as_str().as_bytes();
    assert(line.deep_view()[0].text == text@);
    starts_with(text, word.as_slice())
}

/// Reads the k-mer and the model off a data line.
fn read_row(line: &Vec<Field>) -> (r: Option<(Vec<u8>, SignalModel)>)
    ensures
        match r {
            Some((kmer, model)) => row_of(line.deep_view()) == Some((kmer@, model)),
            None => row_of(line.deep_view()) is None,
        },
{
    if line.len() < 5 {
        return None;
    }
    let text = line[0].text.as_str().as_bytes();
    assert(line.deep_view()[0].text == text@);
    if text.len() != KMER_SIZE {
        return None;
    }
    proof {
        let l = line.deep_view();
        assert(l[0] == line[0]@ && l[1] == line[1]@ && l[2] == line[2]@ && l[3] == line[3]@ && l[4]
            == line[4]@);
    }
    match (line[1].number, line[2].number, line[3].number, line[4].number) {
        (Some(level_mean), Some(level_stdv), Some(sd_mean), Some(sd_stdv)) => {
            Some((slice_to_vec(text), SignalModel::new(level_mean, level_stdv, sd_mean, sd_stdv)))
        },
        _ => None,
    }
}

impl Squiggler {
    /// The table is in order: its k-mers all have `KMER_SIZE` bytes, none
    /// stands twice, and every k-mer over the four nucleotides is among them.
    pub closed spec fn wf(&self) -> bool {
        &&& self.kmersize == KMER_SIZE
        &&& forall|code: u64| self.model@.contains_key(code) ==> code < CODE_LIMIT
        &&& is_complete(self@)
    }

    /// Fills a map with the rows of the lines, up to the first line that
    /// cannot be taken.
    fn scan(lines: &Vec<Vec<Field>>) -> (r: Result<HashMap<u64, SignalModel>, SquigglerError>)
        ensures
            match r {
                Ok(model) => scanned(lines.deep_view()) matches Ok(table) && table == table_of(model@)
                    && forall|code: u64| model@.contains_key(code) ==> code < CODE_LIMIT,
                Err(e) => scanned(lines.deep_view()) matches Err(error) && error == e,
            },
    {
        let ghost all = lines.deep_view();
        let mut model: HashMap<u64, SignalModel> = HashMap::with_capacity(KMER_COUNT);
        let mut i: usize = 0;
        assert(all.take(0) =~= Seq::empty());
        assert(table_of(model@) =~= Map::empty());
        while i < lines.len()
            invariant
                i <= lines.len(),
                all == lines.deep_view(),
                scanned(all.take(i as int)) matches Ok(table) && table == table_of(model@),
                forall|code: u64| model@.contains_key(code) ==> code < CODE_LIMIT,
            decreases lines.len() - i,
        {
            let line = &lines[i];
            proof {
                assert(all.take(i + 1).drop_last() == all.take(i as int));
                assert(all.take(i + 1).last() == line.deep_view());
            }
            if !is_header_line(line) {
                match read_row(line) {
                    None => {
                        proof {
                            lemma_scan_error_persists(all, i + 1);
                        }
                        return Err(SquigglerError::ParseError);
                    },
                    Some((kmer, signal)) => {
                        let code = pack(kmer.as_slice());
                        proof {
                            lemma_codes(kmer@, kmer@);
                        }
                        if model.contains_key(&code) {
                            proof {
                                lemma_scan_error_persists(all, i + 1);
                            }
                            return Err(SquigglerError::NotValidModel);
                        }
                        let ghost before = model@;
                        model.insert(code, signal);
                        proof {
                            assert forall|other: Seq<u8>| other.len() == KMER_SIZE implies (code_of(
                                other,
                            ) == code <==> other == kmer@) by {
                                lemma_codes(other, kmer@);
                            }
                            assert(table_of(model@) =~= table_of(before).insert(kmer@, signal));
                        }
                    },
                }
            }
            i += 1;
        }
        assert(all.take(lines.len() as int) == all);
        Ok(model)
    }

    /// Loads the model from the lines of its source, each cut into fields and
    /// with the numbers converted. Header lines are passed over. The load is
    /// all or nothing.
    pub fn new(lines: &Vec<Vec<Field>>) -> (r: Result<Squiggler, SquigglerError>)
        ensures
            match r {
                Ok(squiggler) => squiggler.wf() && loads_to(lines.deep_view(), squiggler@),
                Err(e) => fails_with(lines.deep_view(), e) && e != SquigglerError::IoError,
            },
    {
        proof {
            lemma_load_errors(lines.deep_view());
        }
        let model = match Squiggler::scan(lines) {
            Ok(model) => model,
            Err(e) => {
                return Err(e);
            },
        };
        let mut index: usize = 0;
        while index < KMER_COUNT
            invariant
                index <= KMER_COUNT,
                scanned(lines.deep_view()) matches Ok(table) && table == table_of(model@),
                forall|code: u64| model@.contains_key(code) ==> code < CODE_LIMIT,
                forall|j: nat|
                    j < index ==> model@.contains_key(
                        code_of(#[trigger] nth_kmer(j, KMER_SIZE as nat)),
                    ),
            decreases KMER_COUNT - index,
        {
            let kmer = kmer_with_index(index);
            let code = pack(kmer.as_slice());
            proof {
                lemma_codes(kmer@, kmer@);
            }
            if !model.contains_key(&code) {
                assert(!table_of(model@).contains_key(kmer@));
                return Err(SquigglerError::NotEnoughData);
            }
            index += 1;
        }
        proof {
            assert forall|kmer: Seq<u8>| is_nucleotide_kmer(kmer) implies table_of(
                model@,
            ).contains_key(kmer) by {
                lemma_index_of(kmer);
                lemma_limits();
                assert(kmer == nth_kmer(index_of(kmer), KMER_SIZE as nat));
            }
        }
        Ok(Squiggler { kmersize: KMER_SIZE, model })
    }

    /// The error of a load from a source that could not be read beyond the
    /// given lines: the error of the first of these lines that cannot be
    /// taken, or `IoError` if they can all be taken.
    pub fn failure_after(lines: &Vec<Vec<Field>>) -> (e: SquigglerError)
        ensures
            e == failure_of(lines.deep_view()),
    {
        match Squiggler::scan(lines) {
            Ok(_) => SquigglerError::IoError,
            Err(e) => e,
        }
    }

    /// The model of a k-mer, if the table has it.
    pub fn get(&self, kmer: &[u8]) -> (r: Option<SignalModel>)
        requires
            self.wf(),
        ensures
            r == (if self@.contains_key(kmer@) {
                Some(self@[kmer@])
            } else {
                None
            }),
    {
        if kmer.len() != KMER_SIZE {
            return None;
        }
        let code = pack(kmer);
        proof {
            lemma_codes(kmer@, kmer@);
        }
        match self.model.get(&code) {
            Some(model) => Some(*model),
            None => None,
        }
    }

    /// The k-mers of the table are the codes of the map, unpacked: there are
    /// as many of the ones as of the others.
    proof fn lemma_codes_and_kmers(&self)
        requires
            self.wf(),
        ensures
            self@.dom().finite(),
            self@.dom().len() == self.model@.dom().len(),
            self@.dom() == self.model@.dom().map(
                |code: u64| unpacked(code as nat, KMER_SIZE as nat),
            ),
    {
        let unpacking = |code: u64| unpacked(code as nat, KMER_SIZE as nat);
        let codes = self.model@.dom();
        let kmers = self@.dom();
        lemma_limits();
        assert forall|a: u64, b: u64|
            codes.contains(a) && codes.contains(b) && unpacking(a) == unpacking(b) implies a
            == b by {
            lemma_packed_unpacked(a as nat, KMER_SIZE as nat);
            lemma_packed_unpacked(b as nat, KMER_SIZE as nat);
        }
        assert forall|kmer: Seq<u8>| codes.map(unpacking).contains(kmer) implies kmers.contains(
            kmer,
        ) by {
            let code = choose|code: u64| codes.contains(code) && kmer == unpacking(code);
            lemma_packed_unpacked(code as nat, KMER_SIZE as nat);
        }
        assert forall|kmer: Seq<u8>| kmers.contains(kmer) implies codes.map(unpacking).contains(
            kmer,
        ) by {
            lemma_codes(kmer, kmer);
            lemma_unpacked_packed(kmer);
            assert(codes.contains(code_of(kmer)) && kmer == unpacking(code_of(kmer)));
        }
        assert(codes.map(unpacking) =~= kmers);
        vstd::set_lib::lemma_map_size(codes, kmers, unpacking);
    }

    /// How many k-mers the table holds.
    pub fn get_size(&self) -> (size: usize)
        requires
            self.wf(),
        ensures
            self@.dom().finite(),
            size == self@.dom().len(),
    {
        proof {
            self.lemma_codes_and_kmers();
        }
        self.model.len()
    }

    /// The k-mers of the table, each once, in no particular order.
    pub fn get_all_kmer(&self) -> (kmers: Vec<Vec<u8>>)
        requires
            self.wf(),
        ensures
            kmers.deep_view().no_duplicates(),
            kmers.deep_view().to_set() == self@.dom(),
    {
        let mut kmers: Vec<Vec<u8>> = Vec::new();
        let ghost codes = spec_keys_iter(&self.model).remaining().unref();
        for code in it: self.model.keys()
            invariant
                it.seq().unref() == codes,
                kmers.len() == it.index(),
                forall|j: int|
                    0 <= j < kmers.len() ==> (#[trigger] kmers[j])@ == unpacked(
                        codes[j] as nat,
                        KMER_SIZE as nat,
                    ),
        {
            assert(*code == codes[it.index()]);
            kmers.push(unpack(*code));
        }
        proof {
            let found = kmers.deep_view();
            let unpacking = |code: u64| unpacked(code as nat, KMER_SIZE as nat);
            self.lemma_codes_and_kmers();
            lemma_limits();
            assert(codes.to_set() == self.model@.dom());
            assert(found.len() == codes.len());
            assert forall|i: int| 0 <= i < found.len() implies found[i] == unpacking(codes[i])
                && self.model@.contains_key(codes[i]) by {
                assert(codes.to_set().contains(codes[i]));
            }
            assert forall|i: int, j: int|
                0 <= i < found.len() && 0 <= j < found.len() && i != j implies found[i]
                != found[j] by {
                assert(codes.to_set().contains(codes[i]) && codes.to_set().contains(codes[j]));
                lemma_packed_unpacked(codes[i] as nat, KMER_SIZE as nat);
                lemma_packed_unpacked(codes[j] as nat, KMER_SIZE as nat);
                assert(spec_keys_iter(&self.model).remaining()[i] != spec_keys_iter(
                    &self.model,
                ).remaining()[j]);
            }
            assert forall|kmer: Seq<u8>| found.to_set().contains(kmer) implies self@.dom().contains(
                kmer,
            ) by {
                let i = choose|i: int| 0 <= i < found.len() && found[i] == kmer;
                assert(self.model@.dom().contains(codes[i]) && kmer == unpacking(codes[i]));
            }
            assert forall|kmer: Seq<u8>| self@.dom().contains(kmer) implies found.to_set().contains(
                kmer,
            ) by {
                let code = choose|code: u64|
                    self.model@.dom().contains(code) && kmer == unpacking(code);
                assert(codes.to_set().contains(code));
                let i = choose|i: int| 0 <= i < codes.len() && codes[i] == code;
                assert(found[i] == kmer);
            }
            assert(found.to_set() =~= self@.dom());
        }
        kmers
    }

    /// Every window of the sequence is a k-mer of the table.
    pub open spec fn covers(&self, seq: Seq<u8>) -> bool {
        forall|i: int| 0 <= i < window_count(seq) ==> self@.contains_key(#[trigger] window(seq, i))
    }

    /// The models of the windows of a sequence, from the first window on.
    pub open spec fn models_of(&self, seq: Seq<u8>) -> Seq<SignalModel> {
        Seq::new(window_count(seq), |i: int| self@[window(seq, i)])
    }

    /// The events of a sequence: one for each window, in order. Each lasts
    /// `LENGTH` and starts where the one before it ends, the first at 0; it
    /// carries the level mean and the noise mean of its window's model.
    pub open spec fn events_of(&self, seq: Seq<u8>) -> Seq<Event> {
        Seq::new(
            window_count(seq),
            |i: int|
                (
                    (i * LENGTH) as u32,
                    LENGTH,
                    self@[window(seq, i)].level_mean,
                    self@[window(seq, i)].sd_mean,
                ),
        )
    }

    /// The models that the windows of a record's sequence match.
    pub fn matched_models(&self, fasta: &str) -> (models: Vec<SignalModel>)
        requires
            self.wf(),
            self.covers(sequence_of(fasta.spec_bytes())),
        ensures
            models@ == self.models_of(sequence_of(fasta.spec_bytes())),
    {
        let seq = sequence(fasta);
        let mut models: Vec<SignalModel> = Vec::new();
        if seq.len() >= self.kmersize {
            let count: usize = seq.len() - self.kmersize + 1;
            let mut i: usize = 0;
            while i < count
                invariant
                    self.wf(),
                    self.covers(seq@),
                    count == window_count(seq@),
                    seq.len() >= KMER_SIZE,
                    i <= count,
                    models.len() == i,
                    forall|j: int| 0 <= j < i ==> #[trigger] models[j] == self@[window(seq@, j)],
                decreases count - i,
            {
                let kmer = slice_subrange(seq.as_slice(), i, i + self.kmersize);
                assert(kmer@ == window(seq@, i as int));
                let found = self.get(kmer);
                models.push(found.unwrap());
                i += 1;
            }
        }
        assert(models@ =~= self.models_of(seq@));
        models
    }

    /// Tells whether the events of a record's sequence can be had: every
    /// window is a k-mer of the table, and every start fits 32 bits.
    pub fn can_generate(&self, fasta: &str) -> (r: bool)
        requires
            self.wf(),
        ensures
            r == (self.covers(sequence_of(fasta.spec_bytes())) && starts_fit(
                sequence_of(fasta.spec_bytes()),
            )),
    {
        let seq = sequence(fasta);
        if seq.len() < self.kmersize {
            return true;
        }
        let count: usize = seq.len() - self.kmersize + 1;
        if count - 1 > (u32::MAX / LENGTH) as usize {
            return false;
        }
        let mut i: usize = 0;
        while i < count
            invariant
                self.wf(),
                seq@ == sequence_of(fasta.spec_bytes()),
                count == window_count(seq@),
                seq.len() >= KMER_SIZE,
                i <= count,
                forall|j: int| 0 <= j < i ==> self@.contains_key(#[trigger] window(seq@, j)),
            decreases count - i,
        {
            let kmer = slice_subrange(seq.as_slice(), i, i + self.kmersize);
            assert(kmer@ == window(seq@, i as int));
            if self.get(kmer).is_none() {
                assert(!self@.contains_key(window(seq@, i as int)));
                return false;
            }
            i += 1;
        }
        true
    }

    /// The events of a record's sequence.
    pub fn get_signal_from_fasta(&self, fasta: &str) -> (events: Vec<Event>)
        requires
            self.wf(),
            self.covers(sequence_of(fasta.spec_bytes())),
            starts_fit(sequence_of(fasta.spec_bytes())),
        ensures
            events@ == self.events_of(sequence_of(fasta.spec_bytes())),
            events.len() == window_count(sequence_of(fasta.spec_bytes())),
            forall|i: int|
                0 <= i < events.len() ==> {
                    let model = self@[window(sequence_of(fasta.spec_bytes()), i)];
                    &&& (#[trigger] events[i]).0 == i * LENGTH
                    &&& events[i].1 == LENGTH
                    &&& events[i].2 == model.level_mean
                    &&& events[i].3 == model.sd_mean
                },
    {
        let ghost seq = sequence_of(fasta.spec_bytes());
        let models = self.matched_models(fasta);
        let mut events: Vec<Event> = Vec::new();
        let mut i: usize = 0;
        while i < models.len()
            invariant
                starts_fit(seq),
                models@ == self.models_of(seq),
                i <= models.len(),
                events.len() == i,
                forall|j: int| 0 <= j < i ==> #[trigger] events[j] == self.events_of(seq)[j],
            decreases models.len() - i,
        {
            assert(i * LENGTH <= (window_count(seq) - 1) * LENGTH) by (nonlinear_arith)
                requires
                    i <= window_count(seq) - 1,
            ;
            let event = models[i].generate();
            let start: u32 = (i as u32) * LENGTH;
            events.push((start, event.1, event.2, event.3));
            i += 1;
        }
        assert(events@ =~= self.events_of(seq));
        events
    }

    /// The rows to write out for a record: its events, the start of each
    /// counted anew from the lengths of those before it.
    pub fn convert(&self, fasta: &str) -> (out: Vec<Event>)
        requires
            self.wf(),
            self.covers(sequence_of(fasta.spec_bytes())),
            starts_fit(sequence_of(fasta.spec_bytes())),
        ensures
            out@ == rows_of(self.events_of(sequence_of(fasta.spec_bytes()))),
            out@ == self.events_of(sequence_of(fasta.spec_bytes())),
    {
        let signals = self.get_signal_from_fasta(fasta);
        proof {
            self.lemma_events_follow(sequence_of(fasta.spec_bytes()));
        }
        rows(&signals)
    }

    /// The events of a sequence follow one another without a gap: each starts
    /// when the time of those before it has passed.
    pub proof fn lemma_events_follow(&self, seq: Seq<u8>)
        requires
            starts_fit(seq),
        ensures
            forall|i: int|
                0 <= i <= window_count(seq) ==> #[trigger] elapsed(self.events_of(seq), i) == i
                    * LENGTH,
            rows_of(self.events_of(seq)) == self.events_of(seq),
    {
        let events = self.events_of(seq);
        assert forall|i: int| 0 <= i <= window_count(seq) implies #[trigger] elapsed(events, i)
            == i * LENGTH by {
            self.lemma_elapsed(seq, i);
        }
        assert forall|i: int| 0 <= i < window_count(seq) implies #[trigger] rows_of(events)[i]
            == events[i] by {
            assert(i * LENGTH <= (window_count(seq) - 1) * LENGTH) by (nonlinear_arith)
                requires
                    i <= window_count(seq) - 1,
            ;
        }
        assert(rows_of(events) =~= events);
    }

    /// What holds of every table in order: it has finitely many k-mers, each
    /// of `KMER_SIZE` bytes, and every k-mer over the four nucleotides is
    /// among them.
    pub proof fn lemma_table(&self)
        requires
            self.wf(),
        ensures
            self@.dom().finite(),
            forall|kmer: Seq<u8>| self@.contains_key(kmer) ==> kmer.len() == KMER_SIZE,
            is_complete(self@),
    {
        self.lemma_codes_and_kmers();
    }

    /// No window of a sequence of nucleotides misses the table.
    pub proof fn lemma_covers_nucleotides(&self, seq: Seq<u8>)
        requires
            self.wf(),
            forall|i: int| 0 <= i < seq.len() ==> is_nucleotide(#[trigger] seq[i]),
        ensures
            self.covers(seq),
    {
        assert forall|i: int| 0 <= i < window_count(seq) implies self@.contains_key(
            #[trigger] window(seq, i),
        ) by {
            let w = window(seq, i);
            assert forall|j: int| 0 <= j < w.len() implies is_nucleotide(#[trigger] w[j]) by {
                assert(w[j] == seq[i + j]);
            }
            assert(is_nucleotide_kmer(w));
        }
    }

    /// A sequence of `KMER_SIZE + n` bytes has `n + 1` events, and a sequence
    /// of fewer than `KMER_SIZE` bytes has none.
    pub proof fn lemma_event_count(&self, seq: Seq<u8>, n: nat)
        ensures
            seq.len() == KMER_SIZE + n ==> self.events_of(seq).len() == n + 1,
            seq.len() < KMER_SIZE ==> self.events_of(seq).len() == 0,
    {
    }

    /// Each event carries the parameters of its window's model themselves.
    pub proof fn lemma_events_carry_the_model(&self, seq: Seq<u8>, i: int)
        requires
            0 <= i < window_count(seq),
        ensures
            self.events_of(seq)[i].2 == self@[window(seq, i)].level_mean,
            self.events_of(seq)[i].3 == self@[window(seq, i)].sd_mean,
            self.events_of(seq)[i].1 == LENGTH,
    {
    }

    proof fn lemma_elapsed(&self, seq: Seq<u8>, i: int)
        requires
            0 <= i <= window_count(seq),
        ensures
            elapsed(self.events_of(seq), i) == i * LENGTH,
        decreases i,
    {
        if i > 0 {
            self.lemma_elapsed(seq, i - 1);
        }
    }
}

/// The starts of all events of a sequence fit 32 bits.
pub open spec fn starts_fit(seq: Seq<u8>) -> bool {
    window_count(seq) == 0 || (window_count(seq) - 1) * LENGTH <= u32::MAX
}

} // verus!
