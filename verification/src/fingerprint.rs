//! The fingerprint of a configuration.
//!
//! A cache is good only for the configuration under which it was written.
//! To tell, the cache carries a number computed from every field of that
//! configuration: the fields are written out as a sequence of numbers, from
//! which the configuration can be read back, and that sequence is hashed to
//! 64 bits. The number is the same for the same configuration, in every run
//! of one build; it is no format to rely on beyond that.

use vstd::prelude::*;
use vstd::arithmetic::div_mod::{lemma_mul_mod_noop_left, lemma_mul_mod_noop_right, lemma_small_mod};
use vstd::wrapping::u64_specs::{wrapping_add, wrapping_mul};
use crate::config::{Config, ConfigView};
use crate::text::{chars_of, opt_text, texts};

verus! {

/// The state from which hashing starts.
pub const OFFSET_BASIS: u64 = 0xcbf2_9ce4_8422_2325;

/// The odd number by which the state is multiplied at each step.
pub const PRIME: u64 = 0x0000_0100_0000_01b3;

/// The state after `unit` has gone into `state`: their sum times `PRIME`,
/// both taken in 64 bits.
#[verifier::opaque]
pub open spec fn mix(state: u64, unit: u64) -> u64 {
    wrapping_mul(wrapping_add(state, unit), PRIME)
}

/// The state after all of `units` have gone into `state`, one after the
/// other.
pub open spec fn absorb(state: u64, units: Seq<u64>) -> u64
    decreases units.len(),
{
    if units.len() == 0 {
        state
    } else {
        mix(absorb(state, units.drop_last()), units.last())
    }
}

/// The hash of `units`.
pub open spec fn hash_of(units: Seq<u64>) -> u64 {
    absorb(OFFSET_BASIS, units)
}

/// Puts `unit` into `state`.
pub fn mix_in(state: u64, unit: u64) -> (next: u64)
    ensures
        next == mix(state, unit),
{
    proof {
        reveal(mix);
    }
    state.wrapping_add(unit).wrapping_mul(PRIME)
}

/// Multiplying by `PRIME` in 64 bits loses nothing: different numbers give
/// different products.
pub proof fn lemma_times_prime_is_injective(a: u64, b: u64)
    requires
        wrapping_mul(a, PRIME) == wrapping_mul(b, PRIME),
    ensures
        a == b,
{
    lemma_times_prime_undone(a);
    lemma_times_prime_undone(b);
}

/// The product with `PRIME` gives its factor back when multiplied by the
/// inverse of `PRIME`.
proof fn lemma_times_prime_undone(a: u64)
    ensures
        (wrapping_mul(a, PRIME) as int * 0xce96_5057_aff6_957b) % 0x1_0000_0000_0000_0000 == a,
{
    let m: int = 0x1_0000_0000_0000_0000;
    let p: int = 0x0000_0100_0000_01b3;
    let q: int = 0xce96_5057_aff6_957b;
    let a: int = a as int;
    assert(wrapping_mul(a as u64, PRIME) as int == (a * p) % m);
    lemma_mul_mod_noop_left(a * p, q, m);
    assert((a * p) * q == a * (p * q)) by (nonlinear_arith);
    lemma_mul_mod_noop_right(a, p * q, m);
    assert(p * q == 16367521364044542611416814714881) by (nonlinear_arith)
        requires
            p == 0x0000_0100_0000_01b3,
            q == 0xce96_5057_aff6_957b,
    ;
    assert((p * q) % m == 1);
    lemma_small_mod(a as nat, m as nat);
}

/// Two units that go into the same state leave different states.
pub proof fn lemma_mix_tells_units_apart(state: u64, x: u64, y: u64)
    requires
        x != y,
    ensures
        mix(state, x) != mix(state, y),
{
    reveal(mix);
    if mix(state, x) == mix(state, y) {
        lemma_times_prime_is_injective(wrapping_add(state, x), wrapping_add(state, y));
    }
}

/// One unit that goes into two different states leaves different states.
pub proof fn lemma_mix_tells_states_apart(s: u64, t: u64, unit: u64)
    requires
        s != t,
    ensures
        mix(s, unit) != mix(t, unit),
{
    reveal(mix);
    if mix(s, unit) == mix(t, unit) {
        lemma_times_prime_is_injective(wrapping_add(s, unit), wrapping_add(t, unit));
    }
}

/// The same units that go into two different states leave different
/// states.
pub proof fn lemma_absorb_tells_states_apart(s: u64, t: u64, units: Seq<u64>)
    requires
        s != t,
    ensures
        absorb(s, units) != absorb(t, units),
    decreases units.len(),
{
    if units.len() > 0 {
        lemma_absorb_tells_states_apart(s, t, units.drop_last());
        lemma_mix_tells_states_apart(
            absorb(s, units.drop_last()),
            absorb(t, units.drop_last()),
            units.last(),
        );
    }
}

/// To absorb two sequences one after the other is to absorb them joined.
pub proof fn lemma_absorb_joined(state: u64, first: Seq<u64>, second: Seq<u64>)
    ensures
        absorb(state, first + second) == absorb(absorb(state, first), second),
    decreases second.len(),
{
    if second.len() == 0 {
        assert(first + second =~= first);
    } else {
        lemma_absorb_joined(state, first, second.drop_last());
        assert((first + second).drop_last() =~= first + second.drop_last());
        assert((first + second).last() == second.last());
    }
}

/// To absorb one unit is to mix it in.
pub proof fn lemma_absorb_one(state: u64, unit: u64)
    ensures
        absorb(state, seq![unit]) == mix(state, unit),
{
    let one = seq![unit];
    assert(one.drop_last() =~= Seq::<u64>::empty());
    assert(absorb(state, one.drop_last()) == state);
    assert(one.last() == unit);
}

/// Two sequences that differ in one unit, and in nothing else, have
/// different hashes.
pub proof fn lemma_hash_tells_one_unit_apart(before: Seq<u64>, x: u64, y: u64, after: Seq<u64>)
    requires
        x != y,
    ensures
        hash_of(before + seq![x] + after) != hash_of(before + seq![y] + after),
{
    let s = absorb(OFFSET_BASIS, before);
    lemma_absorb_joined(OFFSET_BASIS, before, seq![x]);
    lemma_absorb_joined(OFFSET_BASIS, before, seq![y]);
    lemma_absorb_one(s, x);
    lemma_absorb_one(s, y);
    lemma_mix_tells_units_apart(s, x, y);
    lemma_absorb_joined(OFFSET_BASIS, before + seq![x], after);
    lemma_absorb_joined(OFFSET_BASIS, before + seq![y], after);
    lemma_absorb_tells_states_apart(mix(s, x), mix(s, y), after);
}

/// The unit that stands for a flag.
pub open spec fn flag_unit(flag: bool) -> u64 {
    if flag {
        1
    } else {
        0
    }
}

/// The units that stand for the characters of a text.
pub open spec fn char_units(text: Seq<char>) -> Seq<u64> {
    Seq::new(text.len(), |i: int| text[i] as u64)
}

/// The units that stand for a text: its length, then its characters.
pub open spec fn text_units(text: Seq<char>) -> Seq<u64> {
    seq![text.len() as u64] + char_units(text)
}

/// The units that stand for a text that may be absent: 0 where it is, else
/// 1 and the text.
pub open spec fn opt_units(text: Option<Seq<char>>) -> Seq<u64> {
    match text {
        None => seq![0u64],
        Some(t) => seq![1u64] + text_units(t),
    }
}

/// The units that stand for the texts of a list, one text after the other.
pub open spec fn texts_units(list: Seq<Seq<char>>) -> Seq<u64>
    decreases list.len(),
{
    if list.len() == 0 {
        Seq::empty()
    } else {
        texts_units(list.drop_last()) + text_units(list.last())
    }
}

/// The units that stand for a list of texts: its length, then its texts.
pub open spec fn list_units(list: Seq<Seq<char>>) -> Seq<u64> {
    seq![list.len() as u64] + texts_units(list)
}

/// A configuration written out as units, field by field.
pub open spec fn encoding(c: ConfigView) -> Seq<u64> {
    text_units(c.basedir) + (seq![flag_unit(c.follow_symlinks)] + (seq![
        flag_unit(c.same_filesystem),
    ] + (list_units(c.ignored_patterns) + (text_units(c.default_cmd) + (seq![
        flag_unit(c.verbose),
    ] + (seq![flag_unit(c.show_untracked)] + (opt_units(c.cache_file) + opt_units(
        c.ignore_file,
    ))))))))
}

/// The fingerprint of a configuration: the hash of its encoding.
pub open spec fn fingerprint_of(c: ConfigView) -> u64 {
    hash_of(encoding(c))
}

/// Puts a flag into `state`.
fn absorb_flag(state: u64, flag: bool) -> (next: u64)
    ensures
        next == absorb(state, seq![flag_unit(flag)]),
{
    proof {
        lemma_absorb_one(state, flag_unit(flag));
    }
    mix_in(
        state,
        if flag {
            1
        } else {
            0
        },
    )
}

/// Puts a text into `state`.
fn absorb_text(state: u64, text: &str) -> (next: u64)
    ensures
        next == absorb(state, text_units(text@)),
{
    let chars = chars_of(text);
    let n = chars.len();
    let ghost units = text_units(text@);
    let mut h = mix_in(state, n as u64);
    proof {
        lemma_absorb_one(state, n as u64);
        assert(units.take(1) =~= seq![n as u64]);
    }
    let mut i: usize = 0;
    while i < n
        invariant
            i <= n,
            n == chars.len(),
            chars@ == text@,
            units == text_units(text@),
            h == absorb(state, units.take(i + 1)),
        decreases n - i,
    {
        proof {
            assert(units.take(i + 2).drop_last() =~= units.take(i + 1));
            assert(units.take(i + 2).last() == chars@[i as int] as u64);
        }
        h = mix_in(h, chars[i] as u64);
        i += 1;
    }
    proof {
        assert(units.take(n + 1) =~= units);
    }
    h
}

/// Puts a text that may be absent into `state`.
fn absorb_opt(state: u64, text: &Option<String>) -> (next: u64)
    ensures
        next == absorb(state, opt_units(opt_text(*text))),
{
    match text {
        None => {
            proof {
                lemma_absorb_one(state, 0);
            }
            mix_in(state, 0)
        },
        Some(t) => {
            proof {
                lemma_absorb_one(state, 1);
                lemma_absorb_joined(state, seq![1u64], text_units(t@));
            }
            absorb_text(mix_in(state, 1), t.as_str())
        },
    }
}

/// Puts a list of texts into `state`.
fn absorb_list(state: u64, list: &Vec<String>) -> (next: u64)
    ensures
        next == absorb(state, list_units(texts(list@))),
{
    let n = list.len();
    let ghost all = texts(list@);
    let mut h = mix_in(state, n as u64);
    proof {
        lemma_absorb_one(state, n as u64);
        assert(all.take(0) =~= Seq::<Seq<char>>::empty());
        assert(seq![n as u64] + texts_units(all.take(0)) =~= seq![n as u64]);
    }
    let mut i: usize = 0;
    while i < n
        invariant
            i <= n,
            n == list.len(),
            all == texts(list@),
            h == absorb(state, seq![n as u64] + texts_units(all.take(i as int))),
        decreases n - i,
    {
        proof {
            let done = seq![n as u64] + texts_units(all.take(i as int));
            assert(all.take(i + 1).drop_last() =~= all.take(i as int));
            assert(all.take(i + 1).last() == list@[i as int]@);
            lemma_absorb_joined(state, done, text_units(list@[i as int]@));
            assert(done + text_units(list@[i as int]@) =~= seq![n as u64] + texts_units(
                all.take(i + 1),
            ));
        }
        h = absorb_text(h, list[i].as_str());
        i += 1;
    }
    proof {
        assert(all.take(n as int) =~= all);
    }
    h
}

/// The fingerprint of `config`.
pub fn fingerprint(config: &Config) -> (print: u64)
    ensures
        print == fingerprint_of(config@),
{
    let ghost c = config@;
    let ghost r8 = opt_units(c.ignore_file);
    let ghost r7 = opt_units(c.cache_file) + r8;
    let ghost r6 = seq![flag_unit(c.show_untracked)] + r7;
    let ghost r5 = seq![flag_unit(c.verbose)] + r6;
    let ghost r4 = text_units(c.default_cmd) + r5;
    let ghost r3 = list_units(c.ignored_patterns) + r4;
    let ghost r2 = seq![flag_unit(c.same_filesystem)] + r3;
    let ghost r1 = seq![flag_unit(c.follow_symlinks)] + r2;
    let h0 = OFFSET_BASIS;
    let h1 = absorb_text(h0, config.basedir.as_str());
    let h2 = absorb_flag(h1, config.follow_symlinks);
    let h3 = absorb_flag(h2, config.same_filesystem);
    let h4 = absorb_list(h3, &config.ignored_patterns);
    let h5 = absorb_text(h4, config.default_cmd.as_str());
    let h6 = absorb_flag(h5, config.verbose);
    let h7 = absorb_flag(h6, config.show_untracked);
    let h8 = absorb_opt(h7, &config.cache_file);
    let h9 = absorb_opt(h8, &config.ignore_file);
    proof {
        lemma_absorb_joined(h0, text_units(c.basedir), r1);
        lemma_absorb_joined(h1, seq![flag_unit(c.follow_symlinks)], r2);
        lemma_absorb_joined(h2, seq![flag_unit(c.same_filesystem)], r3);
        lemma_absorb_joined(h3, list_units(c.ignored_patterns), r4);
        lemma_absorb_joined(h4, text_units(c.default_cmd), r5);
        lemma_absorb_joined(h5, seq![flag_unit(c.verbose)], r6);
        lemma_absorb_joined(h6, seq![flag_unit(c.show_untracked)], r7);
        lemma_absorb_joined(h7, opt_units(c.cache_file), r8);
    }
    h9
}

/// Two sequences of the same length that differ at one place, and nowhere
/// else, have different hashes.
pub proof fn lemma_hash_tells_single_difference(first: Seq<u64>, second: Seq<u64>, k: int)
    requires
        first.len() == second.len(),
        0 <= k < first.len(),
        first[k] != second[k],
        forall|i: int| 0 <= i < first.len() && i != k ==> first[i] == second[i],
    ensures
        hash_of(first) != hash_of(second),
{
    let before = first.take(k);
    let after = first.skip(k + 1);
    assert(first =~= before + seq![first[k]] + after);
    assert(second =~= before + seq![second[k]] + after);
    lemma_hash_tells_one_unit_apart(before, first[k], second[k], after);
}

/// Whether the lengths in a configuration can be written as units: each
/// text, and the list of patterns, is shorter than 2^64. This holds of
/// every configuration that a machine can hold.
pub open spec fn representable(c: ConfigView) -> bool {
    &&& c.basedir.len() <= u64::MAX
    &&& c.ignored_patterns.len() <= u64::MAX
    &&& forall|i: int|
        0 <= i < c.ignored_patterns.len() ==> (#[trigger] c.ignored_patterns[i]).len() <= u64::MAX
    &&& c.default_cmd.len() <= u64::MAX
    &&& c.cache_file matches Some(file) ==> file.len() <= u64::MAX
    &&& c.ignore_file matches Some(file) ==> file.len() <= u64::MAX
}

/// Different characters have different units.
pub proof fn lemma_char_unit_is_injective(a: char, b: char)
    requires
        a as u64 == b as u64,
    ensures
        a == b,
{
}

/// A text can be read back from the front of what follows it: two texts
/// whose units, each with something behind them, make the same sequence
/// are the same text with the same thing behind.
pub proof fn lemma_text_units_read_back(
    s1: Seq<char>,
    r1: Seq<u64>,
    s2: Seq<char>,
    r2: Seq<u64>,
)
    requires
        s1.len() <= u64::MAX,
        s2.len() <= u64::MAX,
        text_units(s1) + r1 == text_units(s2) + r2,
    ensures
        s1 == s2,
        r1 == r2,
{
    let all1 = text_units(s1) + r1;
    let all2 = text_units(s2) + r2;
    assert(all1[0] == s1.len() as u64);
    assert(all2[0] == s2.len() as u64);
    assert(s1.len() == s2.len());
    assert forall|i: int| 0 <= i < s1.len() implies s1[i] == s2[i] by {
        assert(all1[i + 1] == char_units(s1)[i]);
        assert(all2[i + 1] == char_units(s2)[i]);
        lemma_char_unit_is_injective(s1[i], s2[i]);
    }
    assert(s1 =~= s2);
    assert(all1.skip(text_units(s1).len() as int) =~= r1);
    assert(all2.skip(text_units(s2).len() as int) =~= r2);
}

/// A flag can be read back from the front of what follows it.
pub proof fn lemma_flag_unit_reads_back(f1: bool, r1: Seq<u64>, f2: bool, r2: Seq<u64>)
    requires
        seq![flag_unit(f1)] + r1 == seq![flag_unit(f2)] + r2,
    ensures
        f1 == f2,
        r1 == r2,
{
    let all1 = seq![flag_unit(f1)] + r1;
    let all2 = seq![flag_unit(f2)] + r2;
    assert(all1[0] == flag_unit(f1));
    assert(all2[0] == flag_unit(f2));
    assert(all1.skip(1) =~= r1);
    assert(all2.skip(1) =~= r2);
}

/// A text that may be absent can be read back from the front of what
/// follows it.
pub proof fn lemma_opt_units_read_back(
    o1: Option<Seq<char>>,
    r1: Seq<u64>,
    o2: Option<Seq<char>>,
    r2: Seq<u64>,
)
    requires
        o1 matches Some(t) ==> t.len() <= u64::MAX,
        o2 matches Some(t) ==> t.len() <= u64::MAX,
        opt_units(o1) + r1 == opt_units(o2) + r2,
    ensures
        o1 == o2,
        r1 == r2,
{
    let all1 = opt_units(o1) + r1;
    let all2 = opt_units(o2) + r2;
    assert(all1[0] == if o1 is Some { 1u64 } else { 0u64 });
    assert(all2[0] == if o2 is Some { 1u64 } else { 0u64 });
    match (o1, o2) {
        (Some(t1), Some(t2)) => {
            assert(all1.skip(1) =~= text_units(t1) + r1);
            assert(all2.skip(1) =~= text_units(t2) + r2);
            lemma_text_units_read_back(t1, r1, t2, r2);
        },
        (None, None) => {
            assert(all1.skip(1) =~= r1);
            assert(all2.skip(1) =~= r2);
        },
        _ => {},
    }
}

/// The units of a list of texts, taken apart at the first text.
pub proof fn lemma_texts_units_first(list: Seq<Seq<char>>)
    requires
        list.len() > 0,
    ensures
        texts_units(list) == text_units(list[0]) + texts_units(list.skip(1)),
    decreases list.len(),
{
    if list.len() == 1 {
        assert(list.drop_last() =~= Seq::<Seq<char>>::empty());
        assert(list.skip(1) =~= Seq::<Seq<char>>::empty());
        assert(texts_units(list) =~= text_units(list[0]) + texts_units(list.skip(1)));
    } else {
        lemma_texts_units_first(list.drop_last());
        assert(list.drop_last().skip(1) =~= list.skip(1).drop_last());
        assert(list.skip(1).last() == list.last());
        assert(texts_units(list) =~= text_units(list[0]) + texts_units(list.skip(1)));
    }
}

/// The texts of a list can be read back from the front of what follows
/// them, once it is known how many they are.
pub proof fn lemma_texts_units_read_back(
    l1: Seq<Seq<char>>,
    r1: Seq<u64>,
    l2: Seq<Seq<char>>,
    r2: Seq<u64>,
)
    requires
        l1.len() == l2.len(),
        forall|i: int| 0 <= i < l1.len() ==> (#[trigger] l1[i]).len() <= u64::MAX,
        forall|i: int| 0 <= i < l2.len() ==> (#[trigger] l2[i]).len() <= u64::MAX,
        texts_units(l1) + r1 == texts_units(l2) + r2,
    ensures
        l1 == l2,
        r1 == r2,
    decreases l1.len(),
{
    if l1.len() == 0 {
        assert(texts_units(l1) + r1 =~= r1);
        assert(texts_units(l2) + r2 =~= r2);
        assert(l1 =~= l2);
    } else {
        lemma_texts_units_first(l1);
        lemma_texts_units_first(l2);
        let t1 = l1.skip(1);
        let t2 = l2.skip(1);
        assert(text_units(l1[0]) + texts_units(t1) + r1 =~= text_units(l1[0]) + (texts_units(t1)
            + r1));
        assert(text_units(l2[0]) + texts_units(t2) + r2 =~= text_units(l2[0]) + (texts_units(t2)
            + r2));
        lemma_text_units_read_back(l1[0], texts_units(t1) + r1, l2[0], texts_units(t2) + r2);
        assert forall|i: int| 0 <= i < t1.len() implies (#[trigger] t1[i]).len() <= u64::MAX by {
            assert(t1[i] == l1[i + 1]);
        }
        assert forall|i: int| 0 <= i < t2.len() implies (#[trigger] t2[i]).len() <= u64::MAX by {
            assert(t2[i] == l2[i + 1]);
        }
        lemma_texts_units_read_back(t1, r1, t2, r2);
        assert(l1 =~= seq![l1[0]] + t1);
        assert(l2 =~= seq![l2[0]] + t2);
    }
}

/// A list of texts can be read back from the front of what follows it.
pub proof fn lemma_list_units_read_back(
    l1: Seq<Seq<char>>,
    r1: Seq<u64>,
    l2: Seq<Seq<char>>,
    r2: Seq<u64>,
)
    requires
        l1.len() <= u64::MAX,
        l2.len() <= u64::MAX,
        forall|i: int| 0 <= i < l1.len() ==> (#[trigger] l1[i]).len() <= u64::MAX,
        forall|i: int| 0 <= i < l2.len() ==> (#[trigger] l2[i]).len() <= u64::MAX,
        list_units(l1) + r1 == list_units(l2) + r2,
    ensures
        l1 == l2,
        r1 == r2,
{
    let all1 = list_units(l1) + r1;
    let all2 = list_units(l2) + r2;
    assert(all1[0] == l1.len() as u64);
    assert(all2[0] == l2.len() as u64);
    assert(all1.skip(1) =~= texts_units(l1) + r1);
    assert(all2.skip(1) =~= texts_units(l2) + r2);
    lemma_texts_units_read_back(l1, r1, l2, r2);
}

/// Every field is part of the encoding: two configurations with the same
/// encoding are the same configuration. So two configurations that differ
/// in any field have different encodings, and they have the same
/// fingerprint only where the hash maps two encodings to one number.
pub proof fn lemma_encoding_is_injective(a: ConfigView, b: ConfigView)
    requires
        representable(a),
        representable(b),
        encoding(a) == encoding(b),
    ensures
        a == b,
{
    let a8 = opt_units(a.ignore_file);
    let a7 = opt_units(a.cache_file) + a8;
    let a6 = seq![flag_unit(a.show_untracked)] + a7;
    let a5 = seq![flag_unit(a.verbose)] + a6;
    let a4 = text_units(a.default_cmd) + a5;
    let a3 = list_units(a.ignored_patterns) + a4;
    let a2 = seq![flag_unit(a.same_filesystem)] + a3;
    let a1 = seq![flag_unit(a.follow_symlinks)] + a2;
    let b8 = opt_units(b.ignore_file);
    let b7 = opt_units(b.cache_file) + b8;
    let b6 = seq![flag_unit(b.show_untracked)] + b7;
    let b5 = seq![flag_unit(b.verbose)] + b6;
    let b4 = text_units(b.default_cmd) + b5;
    let b3 = list_units(b.ignored_patterns) + b4;
    let b2 = seq![flag_unit(b.same_filesystem)] + b3;
    let b1 = seq![flag_unit(b.follow_symlinks)] + b2;
    lemma_text_units_read_back(a.basedir, a1, b.basedir, b1);
    lemma_flag_unit_reads_back(a.follow_symlinks, a2, b.follow_symlinks, b2);
    lemma_flag_unit_reads_back(a.same_filesystem, a3, b.same_filesystem, b3);
    lemma_list_units_read_back(a.ignored_patterns, a4, b.ignored_patterns, b4);
    lemma_text_units_read_back(a.default_cmd, a5, b.default_cmd, b5);
    lemma_flag_unit_reads_back(a.verbose, a6, b.verbose, b6);
    lemma_flag_unit_reads_back(a.show_untracked, a7, b.show_untracked, b7);
    lemma_opt_units_read_back(a.cache_file, a8, b.cache_file, b8);
    assert(a8 + Seq::<u64>::empty() =~= a8);
    assert(b8 + Seq::<u64>::empty() =~= b8);
    lemma_opt_units_read_back(a.ignore_file, Seq::empty(), b.ignore_file, Seq::empty());
}

/// The fingerprint tells apart two configurations whose encodings differ
/// in one unit only.
pub proof fn lemma_fingerprint_tells_single_difference(a: ConfigView, b: ConfigView, k: int)
    requires
        encoding(a).len() == encoding(b).len(),
        0 <= k < encoding(a).len(),
        encoding(a)[k] != encoding(b)[k],
        forall|i: int| 0 <= i < encoding(a).len() && i != k ==> encoding(a)[i] == encoding(b)[i],
    ensures
        fingerprint_of(a) != fingerprint_of(b),
{
    lemma_hash_tells_single_difference(encoding(a), encoding(b), k);
}

/// What follows the flag `verbose` in the encoding.
pub open spec fn after_verbose(c: ConfigView) -> Seq<u64> {
    seq![flag_unit(c.show_untracked)] + (opt_units(c.cache_file) + opt_units(c.ignore_file))
}

/// What follows the flag `same_filesystem` in the encoding.
pub open spec fn after_same_filesystem(c: ConfigView) -> Seq<u64> {
    list_units(c.ignored_patterns) + (text_units(c.default_cmd) + (seq![flag_unit(c.verbose)]
        + after_verbose(c)))
}

/// To change whether symbolic links are followed is to change the
/// fingerprint.
pub proof fn lemma_fingerprint_tells_follow_symlinks_apart(c: ConfigView)
    ensures
        fingerprint_of(c) != fingerprint_of(
            ConfigView { follow_symlinks: !c.follow_symlinks, ..c },
        ),
{
    let other = ConfigView { follow_symlinks: !c.follow_symlinks, ..c };
    let before = text_units(c.basedir);
    let after = seq![flag_unit(c.same_filesystem)] + after_same_filesystem(c);
    assert(encoding(c) =~= before + seq![flag_unit(c.follow_symlinks)] + after);
    assert(encoding(other) =~= before + seq![flag_unit(!c.follow_symlinks)] + after);
    lemma_hash_tells_one_unit_apart(
        before,
        flag_unit(c.follow_symlinks),
        flag_unit(!c.follow_symlinks),
        after,
    );
}

/// To change whether the scan stays on one filesystem is to change the
/// fingerprint.
pub proof fn lemma_fingerprint_tells_same_filesystem_apart(c: ConfigView)
    ensures
        fingerprint_of(c) != fingerprint_of(
            ConfigView { same_filesystem: !c.same_filesystem, ..c },
        ),
{
    let other = ConfigView { same_filesystem: !c.same_filesystem, ..c };
    let before = text_units(c.basedir) + seq![flag_unit(c.follow_symlinks)];
    let after = after_same_filesystem(c);
    assert(after_same_filesystem(other) == after);
    assert(encoding(c) =~= before + seq![flag_unit(c.same_filesystem)] + after);
    assert(encoding(other) =~= before + seq![flag_unit(!c.same_filesystem)] + after);
    lemma_hash_tells_one_unit_apart(
        before,
        flag_unit(c.same_filesystem),
        flag_unit(!c.same_filesystem),
        after,
    );
}

/// What stands before the flag `verbose` in the encoding.
pub open spec fn before_verbose(c: ConfigView) -> Seq<u64> {
    text_units(c.basedir) + seq![flag_unit(c.follow_symlinks)] + seq![
        flag_unit(c.same_filesystem),
    ] + list_units(c.ignored_patterns) + text_units(c.default_cmd)
}

/// Seven sequences joined from the back are the same as the first five
/// joined from the front and the rest behind them.
proof fn lemma_regroup(
    t: Seq<u64>,
    f: Seq<u64>,
    g: Seq<u64>,
    l: Seq<u64>,
    d: Seq<u64>,
    v: Seq<u64>,
    rest: Seq<u64>,
)
    ensures
        t + (f + (g + (l + (d + (v + rest))))) == (t + f + g + l + d) + v + rest,
{
    assert(t + (f + (g + (l + (d + (v + rest))))) =~= (t + f + g + l + d) + v + rest);
}

/// To change whether progress is reported is to change the fingerprint.
pub proof fn lemma_fingerprint_tells_verbose_apart(c: ConfigView)
    ensures
        fingerprint_of(c) != fingerprint_of(ConfigView { verbose: !c.verbose, ..c }),
{
    let other = ConfigView { verbose: !c.verbose, ..c };
    let after = after_verbose(c);
    lemma_regroup(
        text_units(c.basedir),
        seq![flag_unit(c.follow_symlinks)],
        seq![flag_unit(c.same_filesystem)],
        list_units(c.ignored_patterns),
        text_units(c.default_cmd),
        seq![flag_unit(c.verbose)],
        after,
    );
    lemma_regroup(
        text_units(c.basedir),
        seq![flag_unit(c.follow_symlinks)],
        seq![flag_unit(c.same_filesystem)],
        list_units(c.ignored_patterns),
        text_units(c.default_cmd),
        seq![flag_unit(!c.verbose)],
        after,
    );
    lemma_hash_tells_one_unit_apart(
        before_verbose(c),
        flag_unit(c.verbose),
        flag_unit(!c.verbose),
        after,
    );
}

/// To change whether untracked files are shown is to change the
/// fingerprint.
pub proof fn lemma_fingerprint_tells_show_untracked_apart(c: ConfigView)
    ensures
        fingerprint_of(c) != fingerprint_of(ConfigView { show_untracked: !c.show_untracked, ..c }),
{
    let other = ConfigView { show_untracked: !c.show_untracked, ..c };
    let v = seq![flag_unit(c.verbose)];
    let after = opt_units(c.cache_file) + opt_units(c.ignore_file);
    lemma_regroup(
        text_units(c.basedir),
        seq![flag_unit(c.follow_symlinks)],
        seq![flag_unit(c.same_filesystem)],
        list_units(c.ignored_patterns),
        text_units(c.default_cmd),
        v,
        seq![flag_unit(c.show_untracked)] + after,
    );
    lemma_regroup(
        text_units(c.basedir),
        seq![flag_unit(c.follow_symlinks)],
        seq![flag_unit(c.same_filesystem)],
        list_units(c.ignored_patterns),
        text_units(c.default_cmd),
        v,
        seq![flag_unit(!c.show_untracked)] + after,
    );
    let before = before_verbose(c) + v;
    assert(before + (seq![flag_unit(c.show_untracked)] + after) == before + seq![
        flag_unit(c.show_untracked),
    ] + after) by {
        lemma_regroup_three(before, seq![flag_unit(c.show_untracked)], after);
    }
    assert(before + (seq![flag_unit(!c.show_untracked)] + after) == before + seq![
        flag_unit(!c.show_untracked),
    ] + after) by {
        lemma_regroup_three(before, seq![flag_unit(!c.show_untracked)], after);
    }
    lemma_hash_tells_one_unit_apart(
        before,
        flag_unit(c.show_untracked),
        flag_unit(!c.show_untracked),
        after,
    );
}

/// Three sequences joined from the back are the same joined from the
/// front.
proof fn lemma_regroup_three(a: Seq<u64>, b: Seq<u64>, c: Seq<u64>)
    ensures
        a + (b + c) == a + b + c,
{
    assert(a + (b + c) =~= a + b + c);
}

/// To replace one character of the base directory is to change the
/// fingerprint.
pub proof fn lemma_fingerprint_tells_basedir_apart(c: ConfigView, i: int, replaced: char)
    requires
        0 <= i < c.basedir.len(),
        c.basedir[i] != replaced,
    ensures
        fingerprint_of(c) != fingerprint_of(
            ConfigView { basedir: c.basedir.update(i, replaced), ..c },
        ),
{
    let other = ConfigView { basedir: c.basedir.update(i, replaced), ..c };
    let first = encoding(c);
    let second = encoding(other);
    assert(first.len() == second.len());
    assert(first[i + 1] == char_units(c.basedir)[i]);
    assert(second[i + 1] == char_units(other.basedir)[i]);
    if first[i + 1] == second[i + 1] {
        lemma_char_unit_is_injective(c.basedir[i], replaced);
    }
    assert forall|k: int| 0 <= k < first.len() && k != i + 1 implies first[k] == second[k] by {
        let t1 = text_units(c.basedir);
        let t2 = text_units(other.basedir);
        if k < t1.len() {
            assert(first[k] == t1[k]);
            assert(second[k] == t2[k]);
        } else {
            assert(first.skip(t1.len() as int) =~= second.skip(t2.len() as int));
            assert(first[k] == first.skip(t1.len() as int)[k - t1.len()]);
            assert(second[k] == second.skip(t2.len() as int)[k - t2.len()]);
        }
    }
    lemma_hash_tells_single_difference(first, second, i + 1);
}

} // verus!
