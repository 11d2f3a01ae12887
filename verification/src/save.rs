//! WAV export and output filename selection.

use crate::audio::{CHANNELS, SAMPLE_RATE};
use crate::sample::{quantized, quantized_is_symmetric, Sample};
use crate::path::{file_lies_in_folder, in_folder, last_component, parent_path, trimmed, SLASH};
use crate::text::{decimal, padded, padded_reads_back, push_padded, value};
use crate::wav::{
    encode_wav, read_le16, read_le32, wav_file, wav_head_reads_back, wav_sample_reads_back,
};
use vstd::prelude::*;
use vstd::utf8::{encode_utf8, is_ascii_chars_encode_utf8};

verus! {

/// The text `sample`, with which every generated filename begins.
pub const FILE_PREFIX: &'static str = "sample";

/// Largest number that is tried for a filename.
pub const LAST_NUMBER: u64 = 2_147_483_647;

/// `sample-NNN.wav`, the number with at least three digits.
pub open spec fn sample_name(n: nat) -> Seq<char> {
    "sample-"@ + padded(n, 3) + ".wav"@
}

/// The names in `list`.
pub open spec fn texts(list: Seq<String>) -> Seq<Seq<char>> {
    list.map_values(|s: String| s@)
}

/// Some generated filename is not among `existing`.
pub open spec fn has_unused_name(existing: Seq<Seq<char>>) -> bool {
    exists|n: nat| 1 <= n <= LAST_NUMBER && !existing.contains(#[trigger] sample_name(n))
}

/// `name` is the generated filename with the lowest number that is not among
/// `existing`.
pub open spec fn is_first_unused(existing: Seq<Seq<char>>, name: Seq<char>) -> bool {
    exists|n: nat|
        {
            &&& 1 <= n <= LAST_NUMBER
            &&& name == #[trigger] sample_name(n)
            &&& !existing.contains(sample_name(n))
            &&& forall|m: nat| 1 <= m < n ==> existing.contains(#[trigger] sample_name(m))
        }
}

/// Different numbers give different filenames.
pub proof fn sample_names_differ(m: nat, n: nat)
    requires
        sample_name(m) == sample_name(n),
    ensures
        m == n,
{
    reveal_strlit("sample-");
    reveal_strlit(".wav");
    let a = sample_name(m);
    let b = sample_name(n);
    assert(a.subrange(7, a.len() - 4) =~= padded(m, 3));
    assert(b.subrange(7, b.len() - 4) =~= padded(n, 3));
    padded_reads_back(m, 3);
    padded_reads_back(n, 3);
}

/// A folder with fewer entries than there are numbers has room for one more file.
pub proof fn some_name_is_unused(existing: Seq<Seq<char>>)
    requires
        existing.len() < LAST_NUMBER,
    ensures
        has_unused_name(existing),
{
    lemma_unused_among(existing, LAST_NUMBER as nat);
}

/// Fewer names than numbers `1..=count` leave one of those numbers free.
proof fn lemma_unused_among(existing: Seq<Seq<char>>, count: nat)
    requires
        existing.len() < count,
    ensures
        exists|n: nat| 1 <= n <= count && !existing.contains(#[trigger] sample_name(n)),
    decreases count,
{
    if existing.contains(sample_name(count)) {
        let at = existing.index_of(sample_name(count));
        let rest = existing.remove(at);
        lemma_unused_among(rest, (count - 1) as nat);
        let n = choose|n: nat| 1 <= n <= count - 1 && !rest.contains(#[trigger] sample_name(n));
        if existing.contains(sample_name(n)) {
            let j = existing.index_of(sample_name(n));
            if j == at {
                sample_names_differ(n, count);
            } else if j < at {
                assert(rest[j] == sample_name(n));
            } else {
                assert(rest[j - 1] == sample_name(n));
            }
        }
    }
}

/// There is only one first unused name.
pub proof fn first_unused_is_unique(existing: Seq<Seq<char>>, a: Seq<char>, b: Seq<char>)
    requires
        is_first_unused(existing, a),
        is_first_unused(existing, b),
    ensures
        a == b,
{
    let m = lemma_first_unused(existing, a);
    let n = lemma_first_unused(existing, b);
    if m < n {
        assert(existing.contains(sample_name(m)));
    } else if n < m {
        assert(existing.contains(sample_name(n)));
    }
}

/// The number of a first unused name.
proof fn lemma_first_unused(existing: Seq<Seq<char>>, name: Seq<char>) -> (n: nat)
    requires
        is_first_unused(existing, name),
    ensures
        1 <= n <= LAST_NUMBER,
        name == sample_name(n),
        !existing.contains(sample_name(n)),
        forall|m: nat| 1 <= m < n ==> existing.contains(#[trigger] sample_name(m)),
{
    choose|n: nat|
        {
            &&& 1 <= n <= LAST_NUMBER
            &&& name == #[trigger] sample_name(n)
            &&& !existing.contains(sample_name(n))
            &&& forall|m: nat| 1 <= m < n ==> existing.contains(#[trigger] sample_name(m))
        }
}

proof fn lemma_decimal_is_digits(n: nat)
    ensures
        decimal(n).len() > 0,
        forall|i: int| 0 <= i < decimal(n).len() ==> '0' <= #[trigger] decimal(n)[i] <= '9',
    decreases n,
{
    if n >= 10 {
        lemma_decimal_is_digits(n / 10);
    }
}

/// A generated filename is written with the same bytes as characters, and has no
/// separator: a file of that name lies in the folder it is put in.
pub proof fn sample_lies_in_folder(folder: Seq<u8>, n: nat)
    ensures
        last_component(in_folder(folder, encode_utf8(sample_name(n)))) == encode_utf8(
            sample_name(n),
        ),
        parent_path(in_folder(folder, encode_utf8(sample_name(n)))) == Some(trimmed(folder)),
{
    let name = sample_name(n);
    reveal_strlit("sample-");
    reveal_strlit(".wav");
    lemma_decimal_is_digits(n);
    let number = padded(n, 3);
    assert forall|i: int| 0 <= i < number.len() implies '0' <= #[trigger] number[i] <= '9' by {
        let fill = number.len() - decimal(n).len();
        if i >= fill {
            assert(number[i] == decimal(n)[i - fill]);
        }
    }
    assert forall|i: int| 0 <= i < name.len() implies '\0' <= #[trigger] name[i] <= '\u{7f}'
        && name[i] != '/' by {
        if 7 <= i < 7 + number.len() {
            assert(name[i] == number[i - 7]);
        } else if i < 7 {
            assert(name[i] == "sample-"@[i]);
        } else {
            assert(name[i] == ".wav"@[i - 7 - number.len()]);
        }
    }
    is_ascii_chars_encode_utf8(name);
    let bytes = encode_utf8(name);
    assert forall|i: int| 0 <= i < bytes.len() implies bytes[i] != SLASH by {
        assert(name[i] as u8 == bytes[i]);
    }
    file_lies_in_folder(folder, bytes);
}

/// Saving never takes a name twice: once a file was saved, the next one gets a higher
/// number.
pub proof fn next_save_counts_up(existing: Seq<Seq<char>>, m: nat, n: nat)
    requires
        1 <= m,
        1 <= n,
        is_first_unused(existing, sample_name(m)),
        is_first_unused(existing.push(sample_name(m)), sample_name(n)),
    ensures
        m < n,
{
    let after = existing.push(sample_name(m));
    let k = lemma_first_unused(existing, sample_name(m));
    let l = lemma_first_unused(after, sample_name(n));
    sample_names_differ(k, m);
    sample_names_differ(l, n);
    assert(after[existing.len() as int] == sample_name(m));
    if n < m {
        let i = existing.index_of(sample_name(n));
        assert(existing.contains(sample_name(n)));
        assert(after[i] == sample_name(n));
    }
}

/// The filename with number `n`.
pub fn sample_filename(n: u64) -> (name: String)
    ensures
        name@ == sample_name(n as nat),
{
    let mut name = String::new();
    name.append(FILE_PREFIX);
    name.append("-");
    proof {
        reveal_strlit("sample");
        reveal_strlit("-");
        reveal_strlit("sample-");
        assert(name@ =~= "sample-"@);
    }
    push_padded(&mut name, n, 3);
    name.append(".wav");
    name
}

fn is_among(existing: &Vec<String>, name: &String) -> (found: bool)
    ensures
        found == texts(existing@).contains(name@),
{
    let mut i: usize = 0;
    while i < existing.len()
        invariant
            i <= existing@.len(),
            forall|j: int| 0 <= j < i ==> existing@[j]@ != name@,
        decreases existing@.len() - i,
    {
        if existing[i] == *name {
            assert(texts(existing@)[i as int] == name@);
            return true;
        }
        i = i + 1;
    }
    false
}

/// The search for an unused filename: one name after another is proposed, and the caller
/// says whether it exists.
///
/// Its view is the number of the name that is proposed.
pub struct NameSearch {
    number: u64,
}

impl View for NameSearch {
    type V = nat;

    closed spec fn view(&self) -> nat {
        self.number as nat
    }
}

impl NameSearch {
    pub open spec fn wf(&self) -> bool {
        1 <= self@ <= LAST_NUMBER
    }

    /// The search from the first name on.
    pub fn new() -> (search: NameSearch)
        ensures
            search.wf(),
            search@ == 1,
    {
        NameSearch { number: 1 }
    }

    /// The name that is proposed.
    pub fn name(&self) -> (name: String)
        ensures
            name@ == sample_name(self@),
    {
        sample_filename(self.number)
    }

    /// No further name can be proposed.
    pub fn is_last(&self) -> (b: bool)
        requires
            self.wf(),
        ensures
            b == (self@ == LAST_NUMBER),
    {
        self.number == LAST_NUMBER
    }

    /// Takes in whether the proposed name exists: if not it is found, else the next one
    /// is proposed.
    pub fn answered(&mut self, exists: bool) -> (found: Option<String>)
        requires
            old(self).wf(),
            exists ==> old(self)@ < LAST_NUMBER,
        ensures
            final(self).wf(),
            exists ==> found is None && final(self)@ == old(self)@ + 1,
            !exists ==> final(self)@ == old(self)@ && (found matches Some(name) && name@
                == sample_name(old(self)@)),
    {
        if exists {
            self.number = self.number + 1;
            None
        } else {
            Some(self.name())
        }
    }
}

/// A search that was told of every earlier name that it exists, and of the proposed one
/// that it does not, has found the first unused name.
pub proof fn search_finds_first_unused(existing: Seq<Seq<char>>, number: nat)
    requires
        1 <= number <= LAST_NUMBER,
        forall|m: nat| 1 <= m < number ==> existing.contains(#[trigger] sample_name(m)),
        !existing.contains(sample_name(number)),
    ensures
        is_first_unused(existing, sample_name(number)),
{
}

/// First `sample-NNN.wav` that is not among the `existing` names.
pub fn next_unused_filename(existing: &Vec<String>) -> (name: String)
    requires
        has_unused_name(texts(existing@)),
    ensures
        is_first_unused(texts(existing@), name@),
{
    let ghost taken = texts(existing@);
    let mut search = NameSearch::new();
    loop
        invariant
            taken == texts(existing@),
            search.wf(),
            forall|m: nat| 1 <= m < search@ ==> taken.contains(#[trigger] sample_name(m)),
            exists|k: nat|
                search@ <= k <= LAST_NUMBER && !taken.contains(#[trigger] sample_name(k)),
        decreases LAST_NUMBER - search@,
    {
        let exists = is_among(existing, &search.name());
        if let Some(name) = search.answered(exists) {
            return name;
        }
    }
}

/// The name that Save As suggests: the unused one that was `found` in the folder, or the
/// first of all where no folder is known.
pub fn suggested_filename(found: Option<String>) -> (name: String)
    ensures
        match found {
            Some(unused) => name@ == unused@,
            None => name@ == sample_name(1),
        },
{
    match found {
        Some(unused) => unused,
        None => NameSearch::new().name(),
    }
}

/// Why a recording could not be encoded.
#[derive(Clone, Copy, Debug, PartialEq, Eq, Structural)]
pub enum SaveError {
    /// The last frame lacks a sample.
    UnfinishedFrame,
}

impl SaveError {
    pub open spec fn text(self) -> Seq<char> {
        "The number of samples written is not a multiple of the number of channels."@
    }

    /// The error in words.
    pub fn message(self) -> (text: String)
        ensures
            text@ == self.text(),
    {
        let text = "The number of samples written is not a multiple of the number of channels.";
        text.to_owned()
    }
}

/// The 16-bit amplitudes of samples.
pub open spec fn quantized_all(samples: Seq<Sample>) -> Seq<i16> {
    samples.map_values(|s: Sample| quantized(s) as i16)
}

/// Interleaved stereo samples as the bytes of a 16-bit PCM WAV file.
pub fn write_wav(samples: &[Sample]) -> (r: Result<Vec<u8>, SaveError>)
    requires
        36 + 2 * samples@.len() <= u32::MAX,
    ensures
        match r {
            Ok(bytes) => samples@.len() % CHANNELS as nat == 0 && bytes@ == wav_file(
                CHANNELS as int,
                SAMPLE_RATE as int,
                quantized_all(samples@),
            ),
            Err(e) => samples@.len() % CHANNELS as nat != 0 && e == SaveError::UnfinishedFrame,
        },
{
    let mut amplitudes: Vec<i16> = Vec::with_capacity(samples.len());
    let mut i: usize = 0;
    while i < samples.len()
        invariant
            i <= samples@.len(),
            amplitudes@ == quantized_all(samples@.take(i as int)),
        decreases samples@.len() - i,
    {
        amplitudes.push(samples[i].quantize());
        i = i + 1;
        assert(amplitudes@ =~= quantized_all(samples@.take(i as int)));
    }
    assert(samples@.take(i as int) =~= samples@);
    match encode_wav(CHANNELS as u16, SAMPLE_RATE, &amplitudes) {
        Ok(bytes) => Ok(bytes),
        Err(_) => Err(SaveError::UnfinishedFrame),
    }
}

/// A saved file is what the samples are at 48 kHz, in stereo and with 16 bits: reading
/// it gives that format, the number of samples, and the amplitude of each of them.
pub proof fn saved_file_reads_back(samples: Seq<Sample>, i: int)
    requires
        36 + 2 * samples.len() <= u32::MAX,
        0 <= i < samples.len(),
    ensures
        ({
            let file = wav_file(CHANNELS as int, SAMPLE_RATE as int, quantized_all(samples));
            &&& read_le16(file, 22) == 2
            &&& read_le32(file, 24) == 48_000
            &&& read_le16(file, 34) == 16
            &&& read_le32(file, 40) == 2 * samples.len()
            &&& read_le16(file, 44 + 2 * i) == quantized(samples[i])
        }),
{
    let amplitudes = quantized_all(samples);
    wav_head_reads_back(CHANNELS as int, SAMPLE_RATE as int, amplitudes);
    wav_sample_reads_back(CHANNELS as int, SAMPLE_RATE as int, amplitudes, i);
    quantized_is_symmetric(samples[i]);
}

/// A generated filename is `sample-`, the digits of its number with zeros in front up to
/// three, and `.wav`.
pub proof fn sample_name_shows_its_number(n: nat)
    ensures
        ({
            let name = sample_name(n);
            let digits = name.subrange(7, name.len() - 4);
            &&& name.len() >= 14
            &&& name[0] == 's' && name[1] == 'a' && name[2] == 'm' && name[3] == 'p' && name[4] == 'l'
                && name[5] == 'e' && name[6] == '-'
            &&& name[name.len() - 4] == '.' && name[name.len() - 3] == 'w' && name[name.len() - 2]
                == 'a' && name[name.len() - 1] == 'v'
            &&& value(digits) == n
            &&& forall|i: int| 0 <= i < digits.len() ==> '0' <= #[trigger] digits[i] <= '9'
            &&& digits.len() > 3 ==> digits == decimal(n)
        }),
{
    reveal_strlit("sample-");
    reveal_strlit(".wav");
    lemma_decimal_is_digits(n);
    let name = sample_name(n);
    let number = padded(n, 3);
    assert(name.subrange(7, name.len() - 4) =~= number);
    padded_reads_back(n, 3);
    assert forall|i: int| 0 <= i < number.len() implies '0' <= #[trigger] number[i] <= '9' by {
        let fill = number.len() - decimal(n).len();
        if i >= fill {
            assert(number[i] == decimal(n)[i - fill]);
        }
    }
}

/// The first unused name does not exist yet, and no unused name has a lower number.
pub proof fn first_unused_is_lowest(existing: Seq<Seq<char>>, name: Seq<char>, m: nat) -> (n: nat)
    requires
        is_first_unused(existing, name),
        1 <= m,
        !existing.contains(sample_name(m)),
    ensures
        !existing.contains(name),
        name == sample_name(n),
        1 <= n <= m,
{
    lemma_first_unused(existing, name)
}

/// The lowest unused name is the first unused one.
pub proof fn lowest_unused_is_first(existing: Seq<Seq<char>>, n: nat)
    requires
        1 <= n <= 2_147_483_647,
        !existing.contains(sample_name(n)),
        forall|m: nat| 1 <= m < n ==> existing.contains(#[trigger] sample_name(m)),
    ensures
        is_first_unused(existing, sample_name(n)),
{
}

/// Each amplitude is that of the sample in its place.
pub proof fn amplitudes_stand_in_order(samples: Seq<Sample>, i: int)
    ensures
        quantized_all(samples).len() == samples.len(),
        0 <= i < samples.len() ==> quantized_all(samples)[i] == quantized(samples[i]),
{
    if 0 <= i < samples.len() {
        quantized_is_symmetric(samples[i]);
    }
}

/// The one error says what is wrong.
pub proof fn error_says_what_is_wrong(e: SaveError)
    ensures
        e.text() == "The number of samples written is not a multiple of the number of channels."@,
{
}

} // verus!
