//! The settings as they are written down: numbers and seeds as text, the
//! sections and keys of the settings file, and the machine of the target.

use crate::params::Config;
use crate::target::{arch_of_machine, Arch, Mode};
use ini::Ini;
use vstd::prelude::*;
use vstd::string::*;

verus! {

/// The settings file of `rust-ini`, carried through as an opaque value.
#[verifier::external_type_specification]
#[verifier::external_body]
pub struct ExIni(ini::Ini);

/// What a settings file holds, as a lookup sees it: for a section and a key,
/// the value that the lookup finds.
pub uninterp spec fn ini_entries(ini: Ini) -> Map<(Seq<char>, Seq<char>), Seq<char>>;

/// `Ini::section` followed by `Properties::get`: the value under the key in
/// the section, where the file holds one.
#[verifier::external_body]
pub(crate) fn ini_get(ini: &Ini, section: &str, item: &str) -> (value: Option<String>)
    ensures
        value is Some <==> ini_entries(*ini).contains_key((section@, item@)),
        value matches Some(v) ==> v@ == ini_entries(*ini)[(section@, item@)],
{
    ini.section(Some(section)).and_then(|s| s.get(item)).map(|v| v.to_string())
}

/// The name that `goblin` gives to an ELF machine number.
pub uninterp spec fn machine_name(machine: u16) -> Seq<char>;

/// `goblin::elf::header::machine_to_str`: the name of an ELF machine number.
#[verifier::external_body]
pub(crate) fn machine_to_str(machine: u16) -> (name: &'static str)
    ensures
        name@ == machine_name(machine),
{
    goblin::elf::header::machine_to_str(machine)
}

/// The machine number in the header of an ELF file; none for bytes that are
/// no ELF file.
pub uninterp spec fn elf_machine_of(bytes: Seq<u8>) -> Option<u16>;

/// `goblin::Object::parse`, and of an ELF object the machine number of its
/// header.
#[verifier::external_body]
pub(crate) fn elf_machine(bytes: &Vec<u8>) -> (machine: Option<u16>)
    ensures
        machine == elf_machine_of(bytes@),
{
    match goblin::Object::parse(bytes) {
        Ok(goblin::Object::Elf(elf)) => Some(elf.header.e_machine),
        _ => None,
    }
}

/// The characters of a text.
pub fn chars_of(text: &str) -> (chars: Vec<char>)
    ensures
        chars@ == text@,
{
    let n = text.unicode_len();
    let mut chars: Vec<char> = Vec::new();
    let mut i: usize = 0;
    while i < n
        invariant
            i <= n,
            n == text@.len(),
            chars@ == text@.take(i as int),
        decreases n - i,
    {
        chars.push(text.get_char(i));
        assert(text@.take(i + 1) =~= text@.take(i as int).push(text@[i as int]));
        i += 1;
    }
    assert(text@.take(n as int) =~= text@);
    chars
}

/// Whether two texts hold the same characters.
pub fn same_text(a: &str, b: &str) -> (same: bool)
    ensures
        same == (a@ == b@),
{
    let x = chars_of(a);
    let y = chars_of(b);
    if x.len() != y.len() {
        return false;
    }
    let mut i: usize = 0;
    while i < x.len()
        invariant
            x@ == a@,
            y@ == b@,
            x@.len() == y@.len(),
            i <= x@.len(),
            forall|k: int| 0 <= k < i ==> x@[k] == y@[k],
        decreases x@.len() - i,
    {
        if x[i] != y[i] {
            return false;
        }
        i += 1;
    }
    assert(x@ =~= y@);
    true
}

/// The architecture that an ELF machine name stands for: ARM, big-endian and
/// little-endian MIPS, and x86 in 64 and in 32 bits; none for other names.
pub fn arch_from_machine(name: &str) -> (arch: Option<Arch>)
    ensures
        arch == arch_of_machine(name@),
{
    if same_text(name, "ARM") {
        Some(Arch::Arm(Mode::Arm))
    } else if same_text(name, "MIPS") {
        Some(Arch::Mips(Mode::Be))
    } else if same_text(name, "MIPS_RS3_LE") {
        Some(Arch::Mips(Mode::Le))
    } else if same_text(name, "X86_64") {
        Some(Arch::X86(Mode::Bits64))
    } else if same_text(name, "386") {
        Some(Arch::X86(Mode::Bits32))
    } else {
        None
    }
}

/// The architecture of the target, from the bytes of its file.
pub open spec fn arch_of_binary(bytes: Seq<u8>) -> Option<Arch> {
    match elf_machine_of(bytes) {
        Some(machine) => arch_of_machine(machine_name(machine)),
        None => None,
    }
}

/// Finds the architecture of the target in the header of its file.  There is
/// none for a file that is no ELF file, and none for a machine that the
/// search does not know.
pub fn detect_arch(bytes: &Vec<u8>) -> (arch: Option<Arch>)
    ensures
        arch == arch_of_binary(bytes@),
{
    match elf_machine(bytes) {
        Some(machine) => arch_from_machine(machine_to_str(machine)),
        None => None,
    }
}

/// The value of a decimal digit.
pub open spec fn digit_of(c: char) -> Option<nat> {
    if '0' <= c <= '9' {
        Some((c as nat - '0' as nat) as nat)
    } else {
        None
    }
}

/// The value of a hexadecimal digit.
pub open spec fn hex_digit_of(c: char) -> Option<nat> {
    if '0' <= c <= '9' {
        Some((c as nat - '0' as nat) as nat)
    } else if 'a' <= c <= 'f' {
        Some((c as nat - 'a' as nat + 10) as nat)
    } else if 'A' <= c <= 'F' {
        Some((c as nat - 'A' as nat + 10) as nat)
    } else {
        None
    }
}

/// The value of a digit in a base, 10 or 16.
pub open spec fn digit_in(c: char, base: nat) -> Option<nat> {
    if base == 16 {
        hex_digit_of(c)
    } else {
        digit_of(c)
    }
}

/// Every character is a digit of the base.
pub open spec fn all_digits(s: Seq<char>, base: nat) -> bool {
    forall|i: int| 0 <= i < s.len() ==> digit_in(#[trigger] s[i], base) is Some
}

/// The number that the digits stand for in the base.
pub open spec fn digits_value(s: Seq<char>, base: nat) -> nat
    decreases s.len(),
{
    if s.len() == 0 {
        0
    } else {
        digits_value(s.drop_last(), base) * base + match digit_in(s.last(), base) {
            Some(d) => d,
            None => 0,
        }
    }
}

/// The number that a text stands for in the base, up to `limit`: an optional
/// plus sign and then digits, one at least.  There is none for other text and
/// none for a number above the limit.
pub open spec fn number_of(s: Seq<char>, base: nat, limit: nat) -> Option<nat> {
    let digits = if s.len() > 0 && s[0] == '+' {
        s.drop_first()
    } else {
        s
    };
    if digits.len() > 0 && all_digits(digits, base) && digits_value(digits, base) <= limit {
        Some(digits_value(digits, base))
    } else {
        None
    }
}

proof fn lemma_digits_value_grows(s: Seq<char>, base: nat, n: int)
    requires
        0 <= n <= s.len(),
        base >= 1,
    ensures
        digits_value(s.take(n), base) <= digits_value(s, base),
    decreases s.len() - n,
{
    if n < s.len() {
        lemma_digits_value_grows(s, base, n + 1);
        assert(s.take(n + 1).drop_last() =~= s.take(n));
        let v = digits_value(s.take(n), base);
        assert(v * base >= v) by (nonlinear_arith)
            requires
                base >= 1,
                v >= 0,
        ;
    } else {
        assert(s.take(n) =~= s);
    }
}

fn digit_value(c: char, hex: bool) -> (d: Option<u64>)
    ensures
        d is Some <==> digit_in(c, if hex { 16 } else { 10 }) is Some,
        d matches Some(v) ==> v == digit_in(c, if hex { 16 } else { 10 })->0 && v < 16,
{
    match c {
        '0' => Some(0),
        '1' => Some(1),
        '2' => Some(2),
        '3' => Some(3),
        '4' => Some(4),
        '5' => Some(5),
        '6' => Some(6),
        '7' => Some(7),
        '8' => Some(8),
        '9' => Some(9),
        _ => {
            if !hex {
                None
            } else {
                match c {
                    'a' | 'A' => Some(10),
                    'b' | 'B' => Some(11),
                    'c' | 'C' => Some(12),
                    'd' | 'D' => Some(13),
                    'e' | 'E' => Some(14),
                    'f' | 'F' => Some(15),
                    _ => None,
                }
            }
        },
    }
}

/// Reads a number, decimal or hexadecimal, that is no larger than `limit`.
pub fn parse_number(text: &Vec<char>, hex: bool, limit: u64) -> (n: Option<u64>)
    ensures
        n is Some <==> number_of(text@, if hex { 16 } else { 10 }, limit as nat) is Some,
        n matches Some(v) ==> v == number_of(text@, if hex { 16 } else { 10 }, limit as nat)->0,
{
    let ghost base: nat = if hex {
        16
    } else {
        10
    };
    let radix: u128 = if hex {
        16
    } else {
        10
    };
    let start: usize = if text.len() > 0 && text[0] == '+' {
        1
    } else {
        0
    };
    let ghost digits = text@.subrange(start as int, text@.len() as int);
    proof {
        if start == 1 {
            assert(digits =~= text@.drop_first());
        } else {
            assert(digits =~= text@);
        }
    }
    if start == text.len() {
        return None;
    }
    let mut value: u128 = 0;
    let mut i: usize = start;
    assert(digits.take(0) =~= Seq::<char>::empty());
    while i < text.len()
        invariant
            start <= i <= text@.len(),
            digits == text@.subrange(start as int, text@.len() as int),
            digits == (if text@.len() > 0 && text@[0] == '+' {
                text@.drop_first()
            } else {
                text@
            }),
            digits.len() > 0,
            base == if hex { 16nat } else { 10nat },
            radix == base,
            all_digits(digits.take(i - start), base),
            value == digits_value(digits.take(i - start), base),
            value <= limit,
        decreases text@.len() - i,
    {
        let ghost done = digits.take(i - start);
        let ghost next = digits.take(i - start + 1);
        proof {
            assert(next.drop_last() =~= done);
            assert(next.last() == text@[i as int]);
        }
        match digit_value(text[i], hex) {
            None => {
                proof {
                    assert(digits[i - start] == text@[i as int]);
                    assert(!all_digits(digits, base));
                }
                return None;
            },
            Some(d) => {
                assert(value * radix + d <= 0xFFFF_FFFF_FFFF_FFFF * 16 + 16) by (nonlinear_arith)
                    requires
                        value <= 0xFFFF_FFFF_FFFF_FFFF,
                        radix <= 16,
                        d < 16,
                ;
                value = value * radix + d as u128;
                proof {
                    assert(value == digits_value(next, base));
                    assert forall|k: int| 0 <= k < next.len() implies digit_in(
                        #[trigger] next[k],
                        base,
                    ) is Some by {
                        if k < done.len() {
                            assert(done[k] == next[k]);
                        }
                    }
                }
                if value > limit as u128 {
                    proof {
                        lemma_digits_value_grows(digits, base, i - start + 1);
                    }
                    return None;
                }
            },
        }
        i += 1;
    }
    proof {
        assert(digits.take(i - start) =~= digits);
    }
    Some(value as u64)
}

/// Reads a count.
pub fn parse_usize(text: &str) -> (n: Option<usize>)
    ensures
        n is Some <==> number_of(text@, 10, usize::MAX as nat) is Some,
        n matches Some(v) ==> v == number_of(text@, 10, usize::MAX as nat)->0,
{
    match parse_number(&chars_of(text), false, usize::MAX as u64) {
        Some(v) => Some(v as usize),
        None => None,
    }
}

/// The setting under a key of a section, or the default where the file has
/// none.
pub open spec fn setting_or(
    entries: Map<(Seq<char>, Seq<char>), Seq<char>>,
    section: Seq<char>,
    item: Seq<char>,
    default: Seq<char>,
) -> Seq<char> {
    if entries.contains_key((section, item)) {
        entries[(section, item)]
    } else {
        default
    }
}

/// Looks a text setting up.
pub fn lookup_string_setting(ini: &Ini, section: &str, item: &str, default: String) -> (value: String)
    ensures
        value@ == setting_or(ini_entries(*ini), section@, item@, default@),
{
    match ini_get(ini, section, item) {
        Some(v) => v,
        None => default,
    }
}

/// Looks a count up.  Where the file has the setting, it must be a count.
pub fn lookup_usize_setting(ini: &Ini, section: &str, item: &str, default: usize) -> (value: Option<
    usize,
>)
    ensures
        value == if ini_entries(*ini).contains_key((section@, item@)) {
            match number_of(ini_entries(*ini)[(section@, item@)], 10, usize::MAX as nat) {
                Some(n) => Some(n as usize),
                None => None,
            }
        } else {
            Some(default)
        },
{
    match ini_get(ini, section, item) {
        Some(v) => parse_usize(v.as_str()),
        None => Some(default),
    }
}

/// A character that parts two words: one that Unicode counts as white
/// space.  These are the tab, the line feed, the vertical tab, the form feed,
/// the carriage return, the blank, the next-line mark, the no-break blank,
/// the ogham space mark, the blanks from U+2000 to U+200A, the line and the
/// paragraph separator, the narrow no-break blank, the medium mathematical
/// blank, and the ideographic blank.
pub open spec fn is_space(c: char) -> bool {
    let u = c as u32;
    ||| 0x09 <= u <= 0x0D
    ||| u == 0x20
    ||| u == 0x85
    ||| u == 0xA0
    ||| u == 0x1680
    ||| 0x2000 <= u <= 0x200A
    ||| u == 0x2028
    ||| u == 0x2029
    ||| u == 0x202F
    ||| u == 0x205F
    ||| u == 0x3000
}

/// The words of a text: its longest runs of characters that are no spaces.
pub open spec fn words_of(s: Seq<char>) -> Seq<Seq<char>>
    decreases s.len(),
{
    if s.len() == 0 {
        Seq::empty()
    } else if is_space(s.last()) {
        words_of(s.drop_last())
    } else if s.len() >= 2 && !is_space(s[s.len() - 2]) {
        let before = words_of(s.drop_last());
        before.drop_last().push(before.last().push(s.last()))
    } else {
        words_of(s.drop_last()).push(seq![s.last()])
    }
}

/// The texts of the words held.
pub open spec fn texts_of(words: Seq<Vec<char>>) -> Seq<Seq<char>> {
    words.map_values(|w: Vec<char>| w@)
}

proof fn lemma_words_end(s: Seq<char>)
    requires
        s.len() > 0,
        !is_space(s.last()),
    ensures
        words_of(s).len() > 0,
        words_of(s).last().len() > 0,
    decreases s.len(),
{
    if s.len() >= 2 && !is_space(s[s.len() - 2]) {
        assert(s.drop_last().last() == s[s.len() - 2]);
        lemma_words_end(s.drop_last());
    }
}

fn is_space_char(c: char) -> (b: bool)
    ensures
        b == is_space(c),
{
    let u = c as u32;
    (0x09 <= u && u <= 0x0D) || u == 0x20 || u == 0x85 || u == 0xA0 || u == 0x1680 || (0x2000 <= u
        && u <= 0x200A) || u == 0x2028 || u == 0x2029 || u == 0x202F || u == 0x205F || u == 0x3000
}

/// Parts a text into its words.
pub fn split_words(text: &Vec<char>) -> (words: Vec<Vec<char>>)
    ensures
        texts_of(words@) == words_of(text@),
{
    let mut words: Vec<Vec<char>> = Vec::new();
    let mut current: Vec<char> = Vec::new();
    let mut i: usize = 0;
    assert(texts_of(words@) =~= words_of(text@.take(0)));
    while i < text.len()
        invariant
            i <= text@.len(),
            current@.len() > 0 <==> i > 0 && !is_space(text@[i - 1]),
            current@.len() == 0 ==> texts_of(words@) == words_of(text@.take(i as int)),
            current@.len() > 0 ==> texts_of(words@).push(current@) == words_of(
                text@.take(i as int),
            ),
        decreases text@.len() - i,
    {
        let c = text[i];
        let ghost done = text@.take(i as int);
        let ghost next = text@.take(i + 1);
        let ghost held = texts_of(words@);
        let ghost run = current@;
        proof {
            assert(next.drop_last() =~= done);
            assert(next.last() == c);
            if i > 0 {
                assert(next[next.len() - 2] == text@[i - 1]);
            }
        }
        if is_space_char(c) {
            if current.len() > 0 {
                let mut word: Vec<char> = Vec::new();
                std::mem::swap(&mut word, &mut current);
                words.push(word);
                assert(texts_of(words@) =~= held.push(run));
            }
        } else {
            current.push(c);
            proof {
                if run.len() > 0 {
                    let before = words_of(done);
                    assert(before == held.push(run));
                    assert(before.drop_last() =~= held);
                    assert(before.last() == run);
                    assert(next.len() >= 2 && !is_space(next[next.len() - 2]));
                    assert(words_of(next) == before.drop_last().push(before.last().push(c)));
                    assert(words_of(next) == held.push(current@));
                } else {
                    assert(current@ =~= seq![c]);
                    assert(words_of(done) == held);
                    assert(!(next.len() >= 2 && !is_space(next[next.len() - 2])));
                    assert(words_of(next) == words_of(done).push(seq![c]));
                }
                assert(texts_of(words@) == held);
            }
        }
        i += 1;
    }
    assert(text@.take(i as int) =~= text@);
    if current.len() > 0 {
        let ghost held = texts_of(words@);
        let ghost run = current@;
        words.push(current);
        assert(texts_of(words@) =~= held.push(run));
    }
    words
}

/// Number of bytes in a seed.
pub const SEED_OCTETS: usize = 32;

/// The octet that a word stands for: a hexadecimal number up to 255.
pub open spec fn octet_of(word: Seq<char>) -> Option<nat> {
    number_of(word, 16, 255)
}

/// The seed that a text stands for: its words read as octets, the first 32 of
/// them, with zeros where the text has fewer.  There is none where one of
/// those words is no octet.
pub open spec fn seed_of(s: Seq<char>) -> Option<Seq<u8>> {
    let words = words_of(s);
    if forall|k: int| 0 <= k < words.len() && k < SEED_OCTETS ==> octet_of(#[trigger] words[k]) is Some {
        Some(
            Seq::new(
                SEED_OCTETS as nat,
                |k: int|
                    if k < words.len() {
                        octet_of(words[k])->0 as u8
                    } else {
                        0u8
                    },
            ),
        )
    } else {
        None
    }
}

/// Reads a seed: hexadecimal octets with spaces between them.
pub fn parse_seed(text: &str) -> (seed: Option<[u8; 32]>)
    ensures
        seed is Some <==> seed_of(text@) is Some,
        seed matches Some(s) ==> s@ == seed_of(text@)->0,
{
    let words = split_words(&chars_of(text));
    let ghost texts = words_of(text@);
    let mut seed = [0u8; 32];
    let mut k: usize = 0;
    while k < words.len() && k < SEED_OCTETS
        invariant
            k <= words@.len(),
            k <= SEED_OCTETS,
            texts == words_of(text@),
            texts_of(words@) == texts,
            forall|j: int| 0 <= j < k ==> octet_of(#[trigger] texts[j]) is Some,
            forall|j: int| 0 <= j < k ==> seed@[j] == octet_of(texts[j])->0 as u8,
            forall|j: int| k <= j < SEED_OCTETS ==> seed@[j] == 0,
        decreases words@.len() - k,
    {
        assert(texts[k as int] == words@[k as int]@);
        match parse_number(&words[k], true, 255) {
            Some(v) => {
                seed[k] = v as u8;
            },
            None => {
                return None;
            },
        }
        k += 1;
    }
    proof {
        assert(texts.len() == words@.len());
        assert(seed@ =~= seed_of(text@)->0);
    }
    Some(seed)
}

/// What is wrong with the settings.
#[derive(Copy, Clone, Debug, PartialEq, Eq, Structural)]
pub enum ConfigError {
    /// The file has no seed.
    MissingSeed,
    /// The seed is not made of octets.
    BadSeed,
    /// A count is no count.
    BadNumber,
}

/// The count under a key of a section as the file has it, the default where
/// it has none, and nothing where what it has is no count.
pub open spec fn count_setting(
    entries: Map<(Seq<char>, Seq<char>), Seq<char>>,
    section: Seq<char>,
    item: Seq<char>,
    default: usize,
) -> Option<usize> {
    if entries.contains_key((section, item)) {
        match number_of(entries[(section, item)], 10, usize::MAX as nat) {
            Some(n) => Some(n as usize),
            None => None,
        }
    } else {
        Some(default)
    }
}

/// The counts of the settings as the file has them.
pub open spec fn counts_of(entries: Map<(Seq<char>, Seq<char>), Seq<char>>) -> Seq<Option<usize>> {
    seq![
        count_setting(entries, "Selection"@, "tournament_size"@, 32),
        count_setting(entries, "Selection"@, "selection_window_size"@, 15),
        count_setting(entries, "Concurrency"@, "channel_size"@, 1),
        count_setting(entries, "Concurrency"@, "num_engines"@, 16),
        count_setting(entries, "Population"@, "population_size"@, 4096),
        count_setting(entries, "Population"@, "min_creature_length"@, 2),
        count_setting(entries, "Population"@, "max_creature_length"@, 2),
    ]
}

/// Reads the settings of a run from the settings file.  The seed must be
/// there; a count that is not there has its default.  The two settings that
/// the file writes as fractions, the mate selection factor and the pointwise
/// mutation rate, are handed in as fixed-point numbers; everything else is as
/// `Config::new` has it.
pub fn read_config(
    ini: &Ini,
    arch: Arch,
    mate_selection_factor: u64,
    pointwise_mutation_rate: u32,
) -> (config: Result<Config, ConfigError>)
    ensures
        ({
            let entries = ini_entries(*ini);
            let counts = counts_of(entries);
            let seed_key = ("Random"@, "seed"@);
            match config {
                Err(ConfigError::MissingSeed) => !entries.contains_key(seed_key),
                Err(ConfigError::BadSeed) => entries.contains_key(seed_key) && seed_of(
                    entries[seed_key],
                ) is None,
                Err(ConfigError::BadNumber) => entries.contains_key(seed_key) && seed_of(
                    entries[seed_key],
                ) is Some && exists|k: int| 0 <= k < counts.len() && (#[trigger] counts[k]) is None,
                Ok(c) => {
                    &&& entries.contains_key(seed_key)
                    &&& Some(c.seed@) == seed_of(entries[seed_key])
                    &&& c.arch == arch
                    &&& Some(c.tournament_size) == counts[0]
                    &&& Some(c.selection_window_size) == counts[1]
                    &&& Some(c.channel_size) == counts[2]
                    &&& Some(c.num_engines) == counts[3]
                    &&& Some(c.population_size) == counts[4]
                    &&& Some(c.min_creature_length) == counts[5]
                    &&& Some(c.max_creature_length) == counts[6]
                    &&& c.mate_selection_factor == mate_selection_factor
                    &&& c.pointwise_mutation_rate == pointwise_mutation_rate
                    &&& c.input_slot_freq == 1677722
                    &&& c.crossover_degree == 8388608
                    &&& c.crossover_xbit
                    &&& c.mask_combiner == crate::params::MaskOp::Xor
                    &&& c.mask_inheritance == crate::params::MaskOp::Uniform
                    &&& c.mask_mut_rate == 3355444
                },
            }
        }),
{
    let seed_text = match ini_get(ini, "Random", "seed") {
        Some(t) => t,
        None => {
            return Err(ConfigError::MissingSeed);
        },
    };
    let seed = match parse_seed(seed_text.as_str()) {
        Some(s) => s,
        None => {
            return Err(ConfigError::BadSeed);
        },
    };
    let ghost counts = counts_of(ini_entries(*ini));
    let tournament_size = lookup_usize_setting(ini, "Selection", "tournament_size", 32);
    let selection_window_size = lookup_usize_setting(ini, "Selection", "selection_window_size", 15);
    let channel_size = lookup_usize_setting(ini, "Concurrency", "channel_size", 1);
    let num_engines = lookup_usize_setting(ini, "Concurrency", "num_engines", 16);
    let population_size = lookup_usize_setting(ini, "Population", "population_size", 4096);
    let min_creature_length = lookup_usize_setting(ini, "Population", "min_creature_length", 2);
    let max_creature_length = lookup_usize_setting(ini, "Population", "max_creature_length", 2);
    proof {
        assert(tournament_size == counts[0]);
        assert(selection_window_size == counts[1]);
        assert(channel_size == counts[2]);
        assert(num_engines == counts[3]);
        assert(population_size == counts[4]);
        assert(min_creature_length == counts[5]);
        assert(max_creature_length == counts[6]);
    }
    match (
        tournament_size,
        selection_window_size,
        channel_size,
        num_engines,
        population_size,
        min_creature_length,
        max_creature_length,
    ) {
        (Some(t), Some(w), Some(c), Some(e), Some(p), Some(lo), Some(hi)) => {
            let mut config = Config::new(seed, arch);
            config.tournament_size = t;
            config.selection_window_size = w;
            config.channel_size = c;
            config.num_engines = e;
            config.population_size = p;
            config.min_creature_length = lo;
            config.max_creature_length = hi;
            config.mate_selection_factor = mate_selection_factor;
            config.pointwise_mutation_rate = pointwise_mutation_rate;
            Ok(config)
        },
        _ => Err(ConfigError::BadNumber),
    }
}

/// The byte that every place of a seed made from a number holds: the lowest
/// byte of the number turned two bits to the left.
pub open spec fn seed_byte(u: u64) -> u8 {
    (((u << 2) | (u >> 62)) & 0xFF) as u8
}

/// Makes a seed from a number.
pub fn mkseed(u: u64) -> (seed: [u8; 32])
    ensures
        forall|i: int| 0 <= i < 32 ==> seed@[i] == seed_byte(u),
{
    let turned: u64 = (u << 2) | (u >> 62);
    assert(turned & 0xFF < 256) by (bit_vector);
    let b: u8 = (turned & 0xFF) as u8;
    let mut seed = [0u8; 32];
    let mut i: usize = 0;
    while i < 32
        invariant
            i <= 32,
            b == seed_byte(u),
            forall|k: int| 0 <= k < i ==> seed@[k] == b,
        decreases 32 - i,
    {
        seed[i] = b;
        i += 1;
    }
    seed
}

} // verus!
