//! The character-driven NMEA 0183 sentence parser.
use vstd::prelude::*;
use vstd::string::*;

use crate::field_reader::split_fields;
use crate::sentences::mandatory_ok;
use crate::sentences::{
    DataGGA,
    DataRMC,
    DataVTG,
    DataZDA,
    decoded,
    empty_gga,
    empty_vtg,
    empty_zda,
    fields_ok,
    parse_fields,
};
use crate::values::{hex_byte, parse_checksum};

verus! {

#[derive(Clone, Debug, PartialEq)]
pub enum Sentence {
    /// No recognized kind
    Invalid,
    /// Global Positioning System Fix Data
    GGA(DataGGA),
    /// Course over Ground and Ground Speed
    VTG(DataVTG),
    /// Recommended Minimum Navigation Data
    RMC(DataRMC),
    /// Time and Date
    ZDA(DataZDA),
}

/// `id` ends with the three characters `w`.
pub open spec fn has_suffix(id: Seq<char>, w: Seq<char>) -> bool {
    id.len() >= w.len() && id.subrange(id.len() - w.len(), id.len() as int) == w
}

/// The sentence, with an empty record, that the identifier field `id` announces.
pub open spec fn classify(id: Seq<char>) -> Sentence {
    if has_suffix(id, seq!['G', 'G', 'A']) {
        Sentence::GGA(empty_gga())
    } else if has_suffix(id, seq!['V', 'T', 'G']) {
        Sentence::VTG(empty_vtg())
    } else if has_suffix(id, seq!['R', 'M', 'C']) {
        Sentence::RMC(DataRMC {  })
    } else if has_suffix(id, seq!['Z', 'D', 'A']) {
        Sentence::ZDA(empty_zda())
    } else {
        Sentence::Invalid
    }
}

fn ends_with3(s: &str, len: usize, a: char, b: char, c: char) -> (r: bool)
    requires
        len == s@.len(),
    ensures
        r == has_suffix(s@, seq![a, b, c]),
{
    if len < 3 {
        return false;
    }
    let r = s.get_char(len - 3) == a && s.get_char(len - 2) == b && s.get_char(len - 1) == c;
    proof {
        let t = s@.subrange(len - 3, len as int);
        if r {
            assert(t =~= seq![a, b, c]);
        } else {
            assert(t[0] == s@[len - 3] && t[1] == s@[len - 2] && t[2] == s@[len - 1]);
        }
    }
    r
}

impl Sentence {
    /// Classifies a sentence by the last three characters of its identifier field.
    pub fn from(s: &String) -> (r: Sentence)
        ensures
            r == classify(s@),
    {
        let t = s.as_str();
        let len = t.unicode_len();
        if ends_with3(t, len, 'G', 'G', 'A') {
            Sentence::GGA(DataGGA::empty())
        } else if ends_with3(t, len, 'V', 'T', 'G') {
            Sentence::VTG(DataVTG::empty())
        } else if ends_with3(t, len, 'R', 'M', 'C') {
            Sentence::RMC(DataRMC {  })
        } else if ends_with3(t, len, 'Z', 'D', 'A') {
            Sentence::ZDA(DataZDA::empty())
        } else {
            Sentence::Invalid
        }
    }

    /// True for the placeholder that stands for no recognized kind.
    pub fn is_invalid(&self) -> (r: bool)
        ensures
            r == (*self is Invalid),
    {
        match self {
            Sentence::Invalid => true,
            _ => false,
        }
    }
}

/// Outcome of a push that did not complete a sentence, or why the attempt was dropped.
#[derive(Debug, PartialEq)]
pub enum State {
    /// Parsing on going
    OnGoing,
    /// Invalid sync char (should be '$')
    InvalidSync(char),
    /// Unknown sentence ID
    InvalidId(String),
    /// Incorrect sentence fields
    InvalidFields,
    /// Checksum mismatch between parser and sentence
    ChecksumMismatch { expected: i32, received: i32 },
    /// The two checksum characters are not hexadecimal digits
    InvalidChecksum(String),
}

/// Section of the sentence that the parser is reading.
#[derive(Debug, PartialEq, Eq, Structural, Clone, Copy)]
pub enum Field {
    Sync,
    Id,
    Data,
    Checksum,
}

/// Kind of sentence, without its record.
#[derive(Debug, PartialEq, Eq, Structural, Clone, Copy)]
pub enum Kind {
    Unrecognized,
    Gga,
    Vtg,
    Rmc,
    Zda,
}

pub open spec fn kind_of(s: Sentence) -> Kind {
    match s {
        Sentence::Invalid => Kind::Unrecognized,
        Sentence::GGA(_) => Kind::Gga,
        Sentence::VTG(_) => Kind::Vtg,
        Sentence::RMC(_) => Kind::Rmc,
        Sentence::ZDA(_) => Kind::Zda,
    }
}

/// The data section `data` decodes for a sentence of kind `k`.
pub open spec fn kind_fields_ok(k: Kind, data: Seq<char>) -> bool {
    match k {
        Kind::Unrecognized => false,
        Kind::Gga => fields_ok(Sentence::GGA(empty_gga()), data),
        Kind::Vtg => fields_ok(Sentence::VTG(empty_vtg()), data),
        Kind::Rmc => true,
        Kind::Zda => true,
    }
}

/// Abstract state of a parser: section, kind of sentence, work buffer and checksums.
pub struct ParserModel {
    pub field: Field,
    pub kind: Kind,
    pub bfr: Seq<char>,
    pub checksum: i32,
    pub read_checksum: i32,
}

/// Abstract result of one push.
pub enum Outcome {
    OnGoing,
    Done,
    InvalidSync(char),
    InvalidId(Seq<char>),
    InvalidFields,
    ChecksumMismatch(i32, i32),
    InvalidChecksum(Seq<char>),
}

pub open spec fn outcome_of(r: Result<Sentence, State>) -> Outcome {
    match r {
        Ok(_) => Outcome::Done,
        Err(State::OnGoing) => Outcome::OnGoing,
        Err(State::InvalidSync(c)) => Outcome::InvalidSync(c),
        Err(State::InvalidId(s)) => Outcome::InvalidId(s@),
        Err(State::InvalidFields) => Outcome::InvalidFields,
        Err(State::ChecksumMismatch { expected, received }) => Outcome::ChecksumMismatch(
            expected,
            received,
        ),
        Err(State::InvalidChecksum(s)) => Outcome::InvalidChecksum(s@),
    }
}

/// The state of a parser waiting for `$`, with nothing buffered.
pub open spec fn reset_model() -> ParserModel {
    ParserModel {
        field: Field::Sync,
        kind: Kind::Unrecognized,
        bfr: Seq::empty(),
        checksum: 0,
        read_checksum: 0,
    }
}

/// XOR of the character codes of `s` into `init`.
pub open spec fn xor_all(init: i32, s: Seq<char>) -> i32
    decreases s.len(),
{
    if s.len() == 0 {
        init
    } else {
        xor_all(init, s.drop_last()) ^ (s.last() as i32)
    }
}

/// What one character does to a parser in state `m`: the next state and the outcome.
pub open spec fn step(m: ParserModel, c: char) -> (ParserModel, Outcome) {
    match m.field {
        Field::Sync => if c == '$' {
            (ParserModel { field: Field::Id, ..reset_model() }, Outcome::OnGoing)
        } else {
            (reset_model(), Outcome::InvalidSync(c))
        },
        Field::Id => {
            let cs = m.checksum ^ (c as i32);
            if c == ',' {
                let k = kind_of(classify(m.bfr));
                if k == Kind::Unrecognized {
                    (reset_model(), Outcome::InvalidId(m.bfr))
                } else {
                    (
                        ParserModel { field: Field::Data, kind: k, bfr: Seq::empty(), checksum: cs, ..m },
                        Outcome::OnGoing,
                    )
                }
            } else {
                (ParserModel { bfr: m.bfr.push(c), checksum: cs, ..m }, Outcome::OnGoing)
            }
        },
        Field::Data => if c == '*' {
            if kind_fields_ok(m.kind, m.bfr) {
                (ParserModel { field: Field::Checksum, bfr: Seq::empty(), ..m }, Outcome::OnGoing)
            } else {
                (reset_model(), Outcome::InvalidFields)
            }
        } else {
            (
                ParserModel { bfr: m.bfr.push(c), checksum: m.checksum ^ (c as i32), ..m },
                Outcome::OnGoing,
            )
        },
        Field::Checksum => {
            let b = m.bfr.push(c);
            if b.len() == 2 {
                match hex_byte(b) {
                    None => (reset_model(), Outcome::InvalidChecksum(b)),
                    Some(v) => if v == m.checksum as int {
                        (
                            ParserModel {
                                field: Field::Sync,
                                kind: Kind::Unrecognized,
                                bfr: b,
                                read_checksum: v as i32,
                                ..m
                            },
                            Outcome::Done,
                        )
                    } else {
                        (reset_model(), Outcome::ChecksumMismatch(m.checksum, v as i32))
                    },
                }
            } else {
                (ParserModel { bfr: b, ..m }, Outcome::OnGoing)
            }
        },
    }
}

/// Folds one character into a running XOR checksum.
pub fn xor(current: i32, c: char) -> (r: i32)
    ensures
        r == current ^ (c as i32),
{
    current ^ (c as u32 as i32)
}

/// Relies on String::push: appends one character to the string.
#[verifier::external_body]
fn push_char(s: &mut String, c: char)
    ensures
        final(s)@ == old(s)@.push(c),
{
    s.push(c)
}

pub struct Parser {
    /// Current NMEA field being parsed
    pub field: Field,
    /// Which sentence we're parsing
    pub sntc: Sentence,
    /// Work buffer
    pub bfr: String,
    /// Current checksum value
    pub checksum: i32,
    /// Checksum read from sentence
    pub read_checksum: i32,
}

impl View for Parser {
    type V = ParserModel;

    open spec fn view(&self) -> ParserModel {
        ParserModel {
            field: self.field,
            kind: kind_of(self.sntc),
            bfr: self.bfr@,
            checksum: self.checksum,
            read_checksum: self.read_checksum,
        }
    }
}

impl Parser {
    pub fn new() -> (r: Parser)
        ensures
            r@ == reset_model(),
            r.sntc == Sentence::Invalid,
    {
        Parser {
            field: Field::Sync,
            sntc: Sentence::Invalid,
            bfr: String::new(),
            checksum: 0,
            read_checksum: 0,
        }
    }

    /// Abandons the sentence in progress.
    pub fn reset(&mut self)
        ensures
            final(self)@ == reset_model(),
            final(self).sntc == Sentence::Invalid,
    {
        self.field = Field::Sync;
        self.sntc = Sentence::Invalid;
        self.bfr = String::new();
        self.checksum = 0;
        self.read_checksum = 0;
    }

    /// Resets the parser and reports `e`.
    pub fn fail_with(&mut self, e: State) -> (r: Result<Sentence, State>)
        ensures
            final(self)@ == reset_model(),
            final(self).sntc == Sentence::Invalid,
            r == Err::<Sentence, State>(e),
    {
        self.reset();
        Err(e)
    }

    /// Feeds one character. Returns the decoded sentence when `c` completes a
    /// sentence whose checksum matches, `Err(State::OnGoing)` while more input is
    /// needed, and any other error after resetting the parser.
    pub fn push(&mut self, c: char) -> (r: Result<Sentence, State>)
        ensures
            step(old(self)@, c) == (final(self)@, outcome_of(r)),
            r is Ok ==> r == Ok::<Sentence, State>(old(self).sntc),
            old(self).field == Field::Id && final(self).field == Field::Data ==> final(self).sntc
                == classify(old(self).bfr@),
            old(self).field == Field::Data && final(self).field == Field::Checksum ==> decoded(
                old(self).sntc,
                old(self).bfr@,
                final(self).sntc,
            ),
            old(self).field == final(self).field && r == Err::<Sentence, State>(State::OnGoing)
                ==> final(self).sntc == old(self).sntc,
            final(self).field == Field::Sync ==> final(self).sntc == Sentence::Invalid,
    {
        match self.field {
            Field::Sync => {
                if c == '$' {
                    self.reset();
                    self.field = Field::Id;
                } else {
                    return self.fail_with(State::InvalidSync(c));
                }
            },
            Field::Id => {
                self.checksum = xor(self.checksum, c);
                if c == ',' {
                    self.sntc = Sentence::from(&self.bfr);
                    if self.sntc.is_invalid() {
                        let id = self.bfr.clone();
                        return self.fail_with(State::InvalidId(id));
                    } else {
                        self.field = Field::Data;
                        self.bfr = String::new();
                    }
                } else {
                    push_char(&mut self.bfr, c);
                }
            },
            Field::Data => {
                if c == '*' {
                    let data = self.bfr.clone();
                    if !parse_fields(&mut self.sntc, data) {
                        return self.fail_with(State::InvalidFields);
                    }
                    self.field = Field::Checksum;
                    self.bfr = String::new();
                } else {
                    push_char(&mut self.bfr, c);
                    self.checksum = xor(self.checksum, c);
                }
            },
            Field::Checksum => {
                push_char(&mut self.bfr, c);
                if self.bfr.as_str().unicode_len() == 2 {
                    match parse_checksum(self.bfr.as_str()) {
                        None => {
                            let digits = self.bfr.clone();
                            return self.fail_with(State::InvalidChecksum(digits));
                        },
                        Some(v) => {
                            self.read_checksum = v;
                            if self.checksum == v {
                                self.field = Field::Sync;
                                let mut out = Sentence::Invalid;
                                std::mem::swap(&mut self.sntc, &mut out);
                                return Ok(out);
                            } else {
                                let expected = self.checksum;
                                return self.fail_with(
                                    State::ChecksumMismatch { expected, received: v },
                                );
                            }
                        },
                    }
                }
            },
        }
        Err(State::OnGoing)
    }
}

/// The state after the characters `s` have been pushed, one by one, from `m`.
pub open spec fn feed(m: ParserModel, s: Seq<char>) -> ParserModel
    decreases s.len(),
{
    if s.len() == 0 {
        m
    } else {
        step(feed(m, s.drop_last()), s.last()).0
    }
}

/// Every character of `s`, pushed one by one from `m`, leaves the sentence on-going.
pub open spec fn quiet(m: ParserModel, s: Seq<char>) -> bool
    decreases s.len(),
{
    s.len() == 0 || (quiet(m, s.drop_last()) && step(feed(m, s.drop_last()), s.last()).1
        is OnGoing)
}

/// The characters of a sentence: `$`, identifier, `,`, data section, `*`, checksum digits.
pub open spec fn framed(id: Seq<char>, data: Seq<char>, digits: Seq<char>) -> Seq<char> {
    seq!['$'] + id + seq![','] + data + seq!['*'] + digits
}

/// The checksum of a sentence: the XOR of every character between `$` and `*`.
pub open spec fn sentence_checksum(id: Seq<char>, data: Seq<char>) -> i32 {
    xor_all(0, id + seq![','] + data)
}

/// The outcome of the push of the last checksum digit of a sentence whose
/// identifier is recognized and whose data section decodes.
pub open spec fn final_outcome(expected: i32, digits: Seq<char>) -> Outcome {
    match hex_byte(digits) {
        None => Outcome::InvalidChecksum(digits),
        Some(v) => if v == expected as int {
            Outcome::Done
        } else {
            Outcome::ChecksumMismatch(expected, v as i32)
        },
    }
}

/// The state right after a `$`: reading the identifier, nothing buffered.
pub open spec fn id_start() -> ParserModel {
    ParserModel { field: Field::Id, ..reset_model() }
}

/// Reading the identifier, with `p` read so far into a checksum `cs`.
pub open spec fn in_id(p: Seq<char>, cs: i32) -> ParserModel {
    ParserModel { field: Field::Id, bfr: p, checksum: cs, ..reset_model() }
}

/// Reading the data section of a sentence of kind `k`, with `p` read so far.
pub open spec fn in_data(k: Kind, p: Seq<char>, cs: i32) -> ParserModel {
    ParserModel { field: Field::Data, kind: k, bfr: p, checksum: cs, ..reset_model() }
}

/// Reading the checksum digits, with `p` read so far.
pub open spec fn in_checksum(k: Kind, p: Seq<char>, cs: i32) -> ParserModel {
    ParserModel { field: Field::Checksum, kind: k, bfr: p, checksum: cs, ..reset_model() }
}

/// A parser waiting for `$` that is handed any other character reports it as
/// an invalid sync character and is left reset; a `$` then starts a fresh
/// sentence with an empty identifier and a zero checksum.
pub proof fn lemma_sync_recovery(m: ParserModel, c: char)
    requires
        m.field == Field::Sync,
        c != '$',
    ensures
        step(m, c) == (reset_model(), Outcome::InvalidSync(c)),
        step(step(m, c).0, '$') == (id_start(), Outcome::OnGoing),
{
}

proof fn lemma_feed_append(m: ParserModel, a: Seq<char>, b: Seq<char>)
    ensures
        feed(m, a + b) == feed(feed(m, a), b),
        quiet(m, a + b) == (quiet(m, a) && quiet(feed(m, a), b)),
    decreases b.len(),
{
    if b.len() == 0 {
        assert(a + b =~= a);
    } else {
        lemma_feed_append(m, a, b.drop_last());
        assert((a + b).drop_last() =~= a + b.drop_last());
    }
}

proof fn lemma_xor_append(init: i32, a: Seq<char>, b: Seq<char>)
    ensures
        xor_all(init, a + b) == xor_all(xor_all(init, a), b),
    decreases b.len(),
{
    if b.len() == 0 {
        assert(a + b =~= a);
    } else {
        lemma_xor_append(init, a, b.drop_last());
        assert((a + b).drop_last() =~= a + b.drop_last());
    }
}

proof fn lemma_feed_one(m: ParserModel, c: char)
    ensures
        feed(m, seq![c]) == step(m, c).0,
        quiet(m, seq![c]) == (step(m, c).1 is OnGoing),
{
    let e = seq![c].drop_last();
    assert(e =~= Seq::<char>::empty());
    assert(feed(m, e) == m);
    assert(quiet(m, e));
    assert(seq![c].last() == c);
}

proof fn lemma_xor_one(x: i32, c: char)
    ensures
        xor_all(x, seq![c]) == x ^ (c as i32),
{
    let e = seq![c].drop_last();
    assert(e =~= Seq::<char>::empty());
    assert(xor_all(x, e) == x);
    assert(seq![c].last() == c);
}

/// Identifier characters accumulate in the buffer and the checksum.
proof fn lemma_feed_id(p: Seq<char>)
    requires
        forall|i: int| 0 <= i < p.len() ==> p[i] != ',',
    ensures
        feed(id_start(), p) == in_id(p, xor_all(0, p)),
        quiet(id_start(), p),
    decreases p.len(),
{
    if p.len() > 0 {
        lemma_feed_id(p.drop_last());
        assert(p.drop_last().push(p.last()) =~= p);
    } else {
        assert(p =~= Seq::<char>::empty());
    }
}

/// Data characters accumulate in the buffer and the checksum.
proof fn lemma_feed_data(k: Kind, cs: i32, p: Seq<char>)
    requires
        forall|i: int| 0 <= i < p.len() ==> p[i] != '*',
    ensures
        feed(in_data(k, Seq::empty(), cs), p) == in_data(k, p, xor_all(cs, p)),
        quiet(in_data(k, Seq::empty(), cs), p),
    decreases p.len(),
{
    if p.len() > 0 {
        lemma_feed_data(k, cs, p.drop_last());
        assert(p.drop_last().push(p.last()) =~= p);
    } else {
        assert(p =~= Seq::<char>::empty());
    }
}

/// A sentence pushed character by character into a reset parser: when its
/// identifier ends in a recognized kind and its data section decodes, every
/// character but the last leaves the sentence on-going. The last one completes
/// the sentence when the two digits are the hexadecimal checksum of the
/// characters between `$` and `*`; otherwise it reports the mismatch (or the
/// digits that are not hexadecimal) and leaves the parser reset, ready for the
/// next sentence.
pub proof fn lemma_sentence(id: Seq<char>, data: Seq<char>, d0: char, d1: char)
    requires
        forall|i: int| 0 <= i < id.len() ==> id[i] != ',',
        forall|i: int| 0 <= i < data.len() ==> data[i] != '*',
        kind_of(classify(id)) != Kind::Unrecognized,
        kind_fields_ok(kind_of(classify(id)), data),
    ensures
        quiet(reset_model(), framed(id, data, seq![d0, d1]).drop_last()),
        step(feed(reset_model(), framed(id, data, seq![d0, d1]).drop_last()), d1).1
            == final_outcome(sentence_checksum(id, data), seq![d0, d1]),
        !(step(feed(reset_model(), framed(id, data, seq![d0, d1]).drop_last()), d1).1 is Done)
            ==> step(feed(reset_model(), framed(id, data, seq![d0, d1]).drop_last()), d1).0
            == reset_model(),
{
    let k = kind_of(classify(id));
    let start = id_start();
    let m0 = reset_model();
    let a = seq!['$'];
    let dstart = in_data(k, Seq::empty(), xor_all(0, id + seq![',']));
    let cs = sentence_checksum(id, data);
    let cstart = in_checksum(k, Seq::empty(), cs);
    let body = framed(id, data, seq![d0, d1]).drop_last();
    assert(body =~= a + id + seq![','] + data + seq!['*'] + seq![d0]);
    // the sync character
    lemma_feed_one(m0, '$');
    // the identifier
    lemma_feed_id(id);
    lemma_feed_append(m0, a, id);
    // its terminating comma
    let idm = feed(start, id);
    lemma_feed_one(idm, ',');
    lemma_xor_append(0, id, seq![',']);
    lemma_xor_one(xor_all(0, id), ',');
    assert(feed(idm, seq![',']) == dstart);
    lemma_feed_append(m0, a + id, seq![',']);
    // the data section
    lemma_feed_data(k, xor_all(0, id + seq![',']), data);
    lemma_xor_append(0, id + seq![','], data);
    lemma_feed_append(m0, a + id + seq![','], data);
    // the star
    let dm = feed(dstart, data);
    lemma_feed_one(dm, '*');
    assert(feed(dm, seq!['*']) == cstart);
    lemma_feed_append(m0, a + id + seq![','] + data, seq!['*']);
    // the first digit
    lemma_feed_one(cstart, d0);
    assert(Seq::<char>::empty().push(d0) =~= seq![d0]);
    assert(feed(cstart, seq![d0]) == in_checksum(k, seq![d0], cs));
    lemma_feed_append(m0, a + id + seq![','] + data + seq!['*'], seq![d0]);
    // the last digit
    assert(seq![d0].push(d1) =~= seq![d0, d1]);
}

/// An identifier whose last three characters name no recognized kind is
/// reported, as it was read, when its terminating comma is pushed; the parser
/// is left reset.
pub proof fn lemma_unknown_id(id: Seq<char>)
    requires
        forall|i: int| 0 <= i < id.len() ==> id[i] != ',',
        classify(id) == Sentence::Invalid,
    ensures
        quiet(reset_model(), seq!['$'] + id),
        step(feed(reset_model(), seq!['$'] + id), ',') == (
            reset_model(),
            Outcome::InvalidId(id),
        ),
{
    lemma_feed_one(reset_model(), '$');
    lemma_feed_id(id);
    lemma_feed_append(reset_model(), seq!['$'], id);
}

/// A GGA data section whose mandatory validity field is missing, empty or not
/// a small integer does not decode: its `*` ends the attempt with invalid
/// fields and a reset parser, so no part of its record is kept.
pub proof fn lemma_gga_bad_validity(m: ParserModel)
    requires
        m.field == Field::Data,
        m.kind == Kind::Gga,
        !mandatory_ok::<u8>(split_fields(m.bfr, ','), 5),
    ensures
        step(m, '*') == (reset_model(), Outcome::InvalidFields),
{
}

} // verus!
