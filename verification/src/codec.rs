use crate::dict::{entries_map, has_key, keys_distinct, lemma_entries_map_keys, Dict};
use crate::state::{IndicatorState, StateView};
use vstd::bytes::{
    lemma_auto_spec_u64_to_from_le_bytes, spec_u64_from_le_bytes, spec_u64_to_le_bytes,
    u64_from_le_bytes, u64_to_le_bytes,
};
use vstd::prelude::*;
use vstd::slice::{slice_subrange, slice_to_vec};
use vstd::utf8::*;

verus! {

/// The word that opens every snapshot: the bytes `INDSNAP1`, read as a little-endian number.
pub const MAGIC: u64 = 0x3150_414e_5344_4e49;

/// The entries of a state table, each state as a value.
pub open spec fn views(items: Seq<(Seq<char>, IndicatorState)>) -> Seq<(Seq<char>, StateView)> {
    Seq::new(items.len(), |i: int| (items[i].0, items[i].1@))
}

// ----- what a snapshot looks like -----
/// A number as eight bytes, lowest first.
pub open spec fn word(x: u64) -> Seq<u8> {
    spec_u64_to_le_bytes(x)
}

/// Numbers one after the other, eight bytes each.
pub open spec fn words(vs: Seq<u64>) -> Seq<u8>
    decreases vs.len(),
{
    if vs.len() == 0 {
        Seq::empty()
    } else {
        words(vs.drop_last()) + word(vs.last())
    }
}

/// A key: the length of its UTF-8 form, then that form.
pub open spec fn key_bytes(key: Seq<char>) -> Seq<u8> {
    word(encode_utf8(key).len() as u64) + encode_utf8(key)
}

/// An optional number: the word 0, or the word 1 and the number.
pub open spec fn current_bytes(current: Option<u64>) -> Seq<u8> {
    match current {
        Some(v) => word(1) + word(v),
        None => word(0),
    }
}

/// One entry: the key, the current value, the count, the length of the window and the
/// window.
pub open spec fn entry_bytes(key: Seq<char>, s: StateView) -> Seq<u8> {
    key_bytes(key) + current_bytes(s.current_value) + word(s.count) + word(s.values.len() as u64)
        + words(s.values)
}

/// Entries one after the other.
pub open spec fn entries_bytes(es: Seq<(Seq<char>, StateView)>) -> Seq<u8>
    decreases es.len(),
{
    if es.len() == 0 {
        Seq::empty()
    } else {
        entry_bytes(es[0].0, es[0].1) + entries_bytes(es.drop_first())
    }
}

/// A snapshot of the entries `es`: the opening word, the number of entries, the entries.
pub open spec fn blob(es: Seq<(Seq<char>, StateView)>) -> Seq<u8> {
    word(MAGIC) + word(es.len() as u64) + entries_bytes(es)
}

/// Every length that a snapshot of `es` writes down fits in a word.
pub open spec fn fits(es: Seq<(Seq<char>, StateView)>) -> bool {
    &&& es.len() <= u64::MAX
    &&& forall|i: int|
        0 <= i < es.len() ==> encode_utf8((#[trigger] es[i]).0).len() <= u64::MAX
            && es[i].1.values.len() <= u64::MAX
}

// ----- how a snapshot is read -----
/// The number at the front of `b`, and what follows it.
pub open spec fn take_word(b: Seq<u8>) -> Option<(u64, Seq<u8>)> {
    if b.len() >= 8 {
        Some((spec_u64_from_le_bytes(b.take(8)), b.skip(8)))
    } else {
        None
    }
}

/// The `n` numbers at the front of `b`, and what follows them.
pub open spec fn take_words(b: Seq<u8>, n: nat) -> Option<(Seq<u64>, Seq<u8>)> {
    if 8 * n <= b.len() {
        Some(
            (
                Seq::new(n, |i: int| spec_u64_from_le_bytes(b.subrange(8 * i, 8 * i + 8))),
                b.skip(8 * n as int),
            ),
        )
    } else {
        None
    }
}

/// The key at the front of `b`, and what follows it. The bytes of a key are valid UTF-8.
pub open spec fn take_key(b: Seq<u8>) -> Option<(Seq<char>, Seq<u8>)> {
    match take_word(b) {
        Some((n, rest)) => if n <= rest.len() && valid_utf8(rest.take(n as int)) {
            Some((decode_utf8(rest.take(n as int)), rest.skip(n as int)))
        } else {
            None
        },
        None => None,
    }
}

/// The optional number at the front of `b`, and what follows it.
pub open spec fn take_current(b: Seq<u8>) -> Option<(Option<u64>, Seq<u8>)> {
    match take_word(b) {
        Some((flag, rest)) => if flag == 0 {
            Some((None, rest))
        } else if flag == 1 {
            match take_word(rest) {
                Some((v, after)) => Some((Some(v), after)),
                None => None,
            }
        } else {
            None
        },
        None => None,
    }
}

/// The entry at the front of `b`, and what follows it.
pub open spec fn take_entry(b: Seq<u8>) -> Option<((Seq<char>, StateView), Seq<u8>)> {
    match take_key(b) {
        Some((key, r1)) => match take_current(r1) {
            Some((current_value, r2)) => match take_word(r2) {
                Some((count, r3)) => match take_word(r3) {
                    Some((n, r4)) => match take_words(r4, n as nat) {
                        Some((values, r5)) => Some(
                            ((key, StateView { current_value, values, count }), r5),
                        ),
                        None => None,
                    },
                    None => None,
                },
                None => None,
            },
            None => None,
        },
        None => None,
    }
}

/// `found` with the entries `acc` put in front of its entries.
pub open spec fn after_entries(
    acc: Seq<(Seq<char>, StateView)>,
    found: Option<(Seq<(Seq<char>, StateView)>, Seq<u8>)>,
) -> Option<(Seq<(Seq<char>, StateView)>, Seq<u8>)> {
    match found {
        Some((es, rest)) => Some((acc + es, rest)),
        None => None,
    }
}

/// The `n` entries at the front of `b`, and what follows them.
pub open spec fn take_entries(b: Seq<u8>, n: nat) -> Option<
    (Seq<(Seq<char>, StateView)>, Seq<u8>),
>
    decreases n,
{
    if n == 0 {
        Some((Seq::empty(), b))
    } else {
        match take_entry(b) {
            Some((e, rest)) => after_entries(seq![e], take_entries(rest, (n - 1) as nat)),
            None => None,
        }
    }
}

/// The entries that `b` is a snapshot of: `b` opens with the opening word and a number
/// of entries, holds that many entries and nothing after them, and no two of them have
/// the same key.
pub open spec fn decode_entries(b: Seq<u8>) -> Option<Seq<(Seq<char>, StateView)>> {
    match take_word(b) {
        Some((magic, r1)) => match take_word(r1) {
            Some((n, r2)) => match take_entries(r2, n as nat) {
                Some((es, r3)) => if magic == MAGIC && r3.len() == 0 && keys_distinct(es) {
                    Some(es)
                } else {
                    None
                },
                None => None,
            },
            None => None,
        },
        None => None,
    }
}

/// The state table that `b` is a snapshot of, if it is one.
pub open spec fn decoded(b: Seq<u8>) -> Option<Map<Seq<char>, StateView>> {
    match decode_entries(b) {
        Some(es) => Some(entries_map(es)),
        None => None,
    }
}

// ----- reading gives back what was written -----
/// A word is eight bytes, and reading gives back the number that was written.
pub proof fn lemma_take_word(x: u64, rest: Seq<u8>)
    ensures
        word(x).len() == 8,
        take_word(word(x) + rest) == Some((x, rest)),
{
    lemma_auto_spec_u64_to_from_le_bytes();
    let b = word(x) + rest;
    assert(b.take(8) =~= word(x));
    assert(b.skip(8) =~= rest);
}

/// Numbers take eight bytes each.
pub proof fn lemma_words_len(vs: Seq<u64>)
    ensures
        words(vs).len() == 8 * vs.len(),
    decreases vs.len(),
{
    lemma_auto_spec_u64_to_from_le_bytes();
    if vs.len() > 0 {
        lemma_words_len(vs.drop_last());
    }
}

/// Reading as many numbers as were written gives them back.
pub proof fn lemma_take_words(vs: Seq<u64>, rest: Seq<u8>)
    ensures
        take_words(words(vs) + rest, vs.len()) == Some((vs, rest)),
    decreases vs.len(),
{
    lemma_auto_spec_u64_to_from_le_bytes();
    lemma_words_len(vs);
    let b = words(vs) + rest;
    let n = vs.len();
    assert(b.skip(8 * n as int) =~= rest);
    let got = Seq::new(n, |i: int| spec_u64_from_le_bytes(b.subrange(8 * i, 8 * i + 8)));
    if n > 0 {
        let init = vs.drop_last();
        let tail = word(vs.last()) + rest;
        lemma_take_words(init, tail);
        lemma_words_len(init);
        assert(b =~= words(init) + tail);
        assert forall|i: int| 0 <= i < n implies got[i] == vs[i] by {
            if i < n - 1 {
                let got_init = Seq::new(
                    init.len(),
                    |j: int|
                        spec_u64_from_le_bytes((words(init) + tail).subrange(8 * j, 8 * j + 8)),
                );
                assert(got_init == init);
                assert(got_init[i] == init[i]);
            } else {
                assert(b.subrange(8 * i, 8 * i + 8) =~= word(vs.last()));
            }
        }
    }
    assert(got =~= vs);
}

/// Reading gives back the key that was written.
pub proof fn lemma_take_key(key: Seq<char>, rest: Seq<u8>)
    requires
        encode_utf8(key).len() <= u64::MAX,
    ensures
        take_key(key_bytes(key) + rest) == Some((key, rest)),
{
    let text = encode_utf8(key);
    let n = text.len() as u64;
    lemma_take_word(n, text + rest);
    assert(key_bytes(key) + rest =~= word(n) + (text + rest));
    assert((text + rest).take(n as int) =~= text);
    assert((text + rest).skip(n as int) =~= rest);
    encode_utf8_valid_utf8(key);
    encode_utf8_decode_utf8(key);
}

/// Reading gives back the optional number that was written.
pub proof fn lemma_take_current(current: Option<u64>, rest: Seq<u8>)
    ensures
        take_current(current_bytes(current) + rest) == Some((current, rest)),
{
    match current {
        Some(v) => {
            lemma_take_word(1, word(v) + rest);
            lemma_take_word(v, rest);
            assert(current_bytes(current) + rest =~= word(1) + (word(v) + rest));
        },
        None => {
            lemma_take_word(0, rest);
        },
    }
}

/// Reading gives back the entry that was written.
pub proof fn lemma_take_entry(key: Seq<char>, s: StateView, rest: Seq<u8>)
    requires
        encode_utf8(key).len() <= u64::MAX,
        s.values.len() <= u64::MAX,
    ensures
        take_entry(entry_bytes(key, s) + rest) == Some(((key, s), rest)),
{
    let r5 = rest;
    let r4 = words(s.values) + r5;
    let r3 = word(s.values.len() as u64) + r4;
    let r2 = word(s.count) + r3;
    let r1 = current_bytes(s.current_value) + r2;
    assert(entry_bytes(key, s) + rest =~= key_bytes(key) + r1);
    lemma_take_key(key, r1);
    lemma_take_current(s.current_value, r2);
    lemma_take_word(s.count, r3);
    lemma_take_word(s.values.len() as u64, r4);
    lemma_take_words(s.values, r5);
}

/// Reading as many entries as were written gives them back.
pub proof fn lemma_take_entries(es: Seq<(Seq<char>, StateView)>, rest: Seq<u8>)
    requires
        fits(es),
    ensures
        take_entries(entries_bytes(es) + rest, es.len()) == Some((es, rest)),
    decreases es.len(),
{
    if es.len() > 0 {
        let e = es[0];
        let tail = es.drop_first();
        assert(fits(tail)) by {
            assert forall|i: int| 0 <= i < tail.len() implies encode_utf8(
                (#[trigger] tail[i]).0,
            ).len() <= u64::MAX && tail[i].1.values.len() <= u64::MAX by {
                assert(tail[i] == es[i + 1]);
            }
        }
        let after = entries_bytes(tail) + rest;
        assert(entries_bytes(es) + rest =~= entry_bytes(e.0, e.1) + after);
        lemma_take_entry(e.0, e.1, after);
        lemma_take_entries(tail, rest);
        assert(seq![e] + tail =~= es);
    }
}

/// Reading a snapshot of entries with distinct keys gives the entries back.
pub proof fn lemma_decode_blob(es: Seq<(Seq<char>, StateView)>)
    requires
        fits(es),
        keys_distinct(es),
    ensures
        decode_entries(blob(es)) == Some(es),
        decoded(blob(es)) == Some(entries_map(es)),
{
    let r2 = entries_bytes(es);
    let r1 = word(es.len() as u64) + r2;
    assert(blob(es) =~= word(MAGIC) + r1);
    lemma_take_word(MAGIC, r1);
    lemma_take_word(es.len() as u64, r2);
    lemma_take_entries(es, Seq::empty());
    assert(r2 + Seq::<u8>::empty() =~= r2);
}

/// The map of the entries as values is the map of the entries, each state as a value.
pub proof fn lemma_views_map(items: Seq<(Seq<char>, IndicatorState)>)
    ensures
        keys_distinct(items) ==> keys_distinct(views(items)),
        entries_map(views(items)) == entries_map(items).map_values(|s: IndicatorState| s@),
    decreases items.len(),
{
    if keys_distinct(items) {
        assert forall|i: int, j: int| 0 <= i < j < views(items).len() implies (
        #[trigger] views(items)[i]).0 != (#[trigger] views(items)[j]).0 by {
            assert(items[i].0 != items[j].0);
        }
    }
    if items.len() > 0 {
        lemma_views_map(items.drop_last());
        assert(views(items).drop_last() =~= views(items.drop_last()));
    }
    assert(entries_map(views(items)) =~= entries_map(items).map_values(
        |s: IndicatorState| s@,
    ));
}

/// Writing one more entry appends its bytes.
pub proof fn lemma_entries_bytes_push(es: Seq<(Seq<char>, StateView)>, e: (Seq<char>, StateView))
    ensures
        entries_bytes(es.push(e)) == entries_bytes(es) + entry_bytes(e.0, e.1),
    decreases es.len(),
{
    if es.len() == 0 {
        assert(es.push(e).drop_first() =~= Seq::empty());
        assert(es.push(e)[0] == e);
        assert(entries_bytes(es.push(e).drop_first()) =~= Seq::<u8>::empty());
        assert(entries_bytes(es.push(e)) =~= entries_bytes(es) + entry_bytes(e.0, e.1));
    } else {
        lemma_entries_bytes_push(es.drop_first(), e);
        let first = entry_bytes(es[0].0, es[0].1);
        let middle = entries_bytes(es.drop_first());
        let last = entry_bytes(e.0, e.1);
        assert(es.push(e).drop_first() =~= es.drop_first().push(e));
        assert(es.push(e)[0] == es[0]);
        assert(entries_bytes(es.push(e)) == first + (middle + last));
        assert(entries_bytes(es) == first + middle);
        assert(first + (middle + last) =~= (first + middle) + last);
    }
}

// ----- writing -----
/// Appends a number.
fn put_word(out: &mut Vec<u8>, x: u64)
    ensures
        final(out)@ == old(out)@ + word(x),
{
    let mut w = u64_to_le_bytes(x);
    out.append(&mut w);
}

/// Appends numbers one after the other.
fn put_words(out: &mut Vec<u8>, values: &Vec<u64>)
    ensures
        final(out)@ == old(out)@ + words(values@),
{
    let mut j: usize = 0;
    assert(values@.take(0) =~= Seq::empty());
    assert(out@ =~= old(out)@ + words(values@.take(0)));
    while j < values.len()
        invariant
            j <= values@.len(),
            out@ == old(out)@ + words(values@.take(j as int)),
        decreases values@.len() - j,
    {
        put_word(out, values[j]);
        proof {
            let next = values@.take(j + 1);
            assert(next.drop_last() =~= values@.take(j as int));
            assert(out@ =~= old(out)@ + words(next));
        }
        j += 1;
    }
    assert(values@.take(values@.len() as int) =~= values@);
}

/// Appends one entry.
fn put_entry(out: &mut Vec<u8>, key: &String, state: &IndicatorState)
    ensures
        final(out)@ == old(out)@ + entry_bytes(key@, state@),
        encode_utf8(key@).len() <= u64::MAX,
        state@.values.len() <= u64::MAX,
{
    let text = key.as_str().as_bytes();
    put_word(out, text.len() as u64);
    let mut copy = slice_to_vec(text);
    out.append(&mut copy);
    match state.current_value {
        Some(v) => {
            put_word(out, 1);
            put_word(out, v);
        },
        None => {
            put_word(out, 0);
        },
    }
    put_word(out, state.count);
    put_word(out, state.values.len() as u64);
    put_words(out, &state.values);
    assert(out@ =~= old(out)@ + entry_bytes(key@, state@));
}

/// Writes a state table down as a snapshot. Reading the snapshot gives the table back.
pub fn encode(table: &Dict<IndicatorState>) -> (r: Vec<u8>)
    ensures
        r@ == blob(views(table.items())),
        decoded(r@) == Some(table@.map_values(|s: IndicatorState| s@)),
{
    let n = table.len();
    let ghost es = views(table.items());
    let mut out: Vec<u8> = Vec::new();
    put_word(&mut out, MAGIC);
    put_word(&mut out, n as u64);
    let ghost head = out@;
    let mut i: usize = 0;
    assert(es.take(0) =~= Seq::empty());
    assert(out@ =~= head + entries_bytes(es.take(0)));
    while i < n
        invariant
            n == table.items().len(),
            es == views(table.items()),
            i <= n,
            out@ == head + entries_bytes(es.take(i as int)),
            forall|j: int|
                0 <= j < i ==> encode_utf8((#[trigger] es[j]).0).len() <= u64::MAX
                    && es[j].1.values.len() <= u64::MAX,
        decreases n - i,
    {
        put_entry(&mut out, table.key_at(i), table.value_at(i));
        proof {
            lemma_entries_bytes_push(es.take(i as int), es[i as int]);
            assert(es.take(i + 1) =~= es.take(i as int).push(es[i as int]));
            assert(out@ =~= head + entries_bytes(es.take(i + 1)));
        }
        i += 1;
    }
    proof {
        assert(es.take(n as int) =~= es);
        assert(out@ =~= blob(es));
        lemma_views_map(table.items());
        lemma_decode_blob(es);
    }
    out
}

// ----- reading -----
/// `String::from_utf8` of the standard library: the text of which `bytes` are the UTF-8
/// form, or nothing where they are the UTF-8 form of no text.
#[verifier::external_body]
fn text_of(bytes: Vec<u8>) -> (r: Option<String>)
    ensures
        match r {
            Some(s) => valid_utf8(bytes@) && s@ == decode_utf8(bytes@),
            None => !valid_utf8(bytes@),
        },
{
    String::from_utf8(bytes).ok()
}

/// Reads the number at `at`; gives it with the position after it.
fn read_word(b: &[u8], at: usize) -> (r: Option<(u64, usize)>)
    requires
        at <= b@.len(),
    ensures
        match r {
            Some((x, next)) => at <= next <= b@.len() && take_word(b@.skip(at as int)) == Some(
                (x, b@.skip(next as int)),
            ),
            None => take_word(b@.skip(at as int)) is None,
        },
{
    if b.len() - at < 8 {
        return None;
    }
    let x = u64_from_le_bytes(slice_subrange(b, at, at + 8));
    proof {
        assert(b@.skip(at as int).take(8) =~= b@.subrange(at as int, at + 8));
        assert(b@.skip(at as int).skip(8) =~= b@.skip(at + 8));
    }
    Some((x, at + 8))
}

/// Reads the `n` numbers at `at`; gives them with the position after them.
fn read_words(b: &[u8], at: usize, n: u64) -> (r: Option<(Vec<u64>, usize)>)
    requires
        at <= b@.len(),
    ensures
        match r {
            Some((vs, next)) => at <= next <= b@.len() && take_words(
                b@.skip(at as int),
                n as nat,
            ) == Some((vs@, b@.skip(next as int))),
            None => take_words(b@.skip(at as int), n as nat) is None,
        },
{
    let room = (b.len() - at) / 8;
    if n > room as u64 {
        return None;
    }
    let count = n as usize;
    let ghost from = b@.skip(at as int);
    let mut vs: Vec<u64> = Vec::new();
    let mut i: usize = 0;
    while i < count
        invariant
            at <= b@.len() <= usize::MAX,
            from == b@.skip(at as int),
            count == n,
            8 * count <= b@.len() - at,
            i <= count,
            vs@ == Seq::new(
                i as nat,
                |j: int| spec_u64_from_le_bytes(from.subrange(8 * j, 8 * j + 8)),
            ),
        decreases count - i,
    {
        let x = u64_from_le_bytes(slice_subrange(b, at + 8 * i, at + 8 * i + 8));
        vs.push(x);
        proof {
            assert(from.subrange(8 * i, 8 * i + 8) =~= b@.subrange(at + 8 * i, at + 8 * i + 8));
            assert(vs@ =~= Seq::new(
                (i + 1) as nat,
                |j: int| spec_u64_from_le_bytes(from.subrange(8 * j, 8 * j + 8)),
            ));
        }
        i += 1;
    }
    proof {
        assert(from.skip(8 * count as int) =~= b@.skip(at + 8 * count));
    }
    Some((vs, at + 8 * count))
}

/// Reads the key at `at`; gives it with the position after it.
fn read_key(b: &[u8], at: usize) -> (r: Option<(String, usize)>)
    requires
        at <= b@.len(),
    ensures
        match r {
            Some((key, next)) => at <= next <= b@.len() && take_key(b@.skip(at as int)) == Some(
                (key@, b@.skip(next as int)),
            ),
            None => take_key(b@.skip(at as int)) is None,
        },
{
    let (n, start) = match read_word(b, at) {
        Some(found) => found,
        None => {
            return None;
        },
    };
    if n > (b.len() - start) as u64 {
        return None;
    }
    let end = start + n as usize;
    proof {
        let rest = b@.skip(start as int);
        assert(rest.take(n as int) =~= b@.subrange(start as int, end as int));
        assert(rest.skip(n as int) =~= b@.skip(end as int));
    }
    match text_of(slice_to_vec(slice_subrange(b, start, end))) {
        Some(key) => Some((key, end)),
        None => None,
    }
}

/// Reads the optional number at `at`; gives it with the position after it.
fn read_current(b: &[u8], at: usize) -> (r: Option<(Option<u64>, usize)>)
    requires
        at <= b@.len(),
    ensures
        match r {
            Some((current, next)) => at <= next <= b@.len() && take_current(b@.skip(at as int))
                == Some((current, b@.skip(next as int))),
            None => take_current(b@.skip(at as int)) is None,
        },
{
    let (flag, start) = match read_word(b, at) {
        Some(found) => found,
        None => {
            return None;
        },
    };
    if flag == 0 {
        Some((None, start))
    } else if flag == 1 {
        match read_word(b, start) {
            Some((v, next)) => Some((Some(v), next)),
            None => None,
        }
    } else {
        None
    }
}

/// Reads the entry at `at`; gives its key and state with the position after it.
fn read_entry(b: &[u8], at: usize) -> (r: Option<(String, IndicatorState, usize)>)
    requires
        at <= b@.len(),
    ensures
        match r {
            Some((key, state, next)) => at <= next <= b@.len() && take_entry(b@.skip(at as int))
                == Some(((key@, state@), b@.skip(next as int))),
            None => take_entry(b@.skip(at as int)) is None,
        },
{
    let (key, at_current) = match read_key(b, at) {
        Some(found) => found,
        None => {
            return None;
        },
    };
    let (current_value, at_count) = match read_current(b, at_current) {
        Some(found) => found,
        None => {
            return None;
        },
    };
    let (count, at_length) = match read_word(b, at_count) {
        Some(found) => found,
        None => {
            return None;
        },
    };
    let (n, at_values) = match read_word(b, at_length) {
        Some(found) => found,
        None => {
            return None;
        },
    };
    let (values, end) = match read_words(b, at_values, n) {
        Some(found) => found,
        None => {
            return None;
        },
    };
    Some((key, IndicatorState { current_value, values, count }, end))
}

/// Reads a snapshot: the state table that `bytes` are a snapshot of, or nothing where
/// they are a snapshot of none.
pub fn decode(bytes: &[u8]) -> (r: Option<Dict<IndicatorState>>)
    ensures
        match r {
            Some(table) => decoded(bytes@) == Some(table@.map_values(|s: IndicatorState| s@)),
            None => decoded(bytes@) is None,
        },
{
    assert(bytes@.skip(0) =~= bytes@);
    let (magic, at_length) = match read_word(bytes, 0) {
        Some(found) => found,
        None => {
            return None;
        },
    };
    let (n, start) = match read_word(bytes, at_length) {
        Some(found) => found,
        None => {
            return None;
        },
    };
    if magic != MAGIC {
        return None;
    }
    let mut table: Dict<IndicatorState> = Dict::new();
    let ghost mut acc: Seq<(Seq<char>, StateView)> = Seq::empty();
    let mut at: usize = start;
    let mut i: u64 = 0;
    proof {
        let found = take_entries(bytes@.skip(start as int), n as nat);
        assert(after_entries(acc, found) == found) by {
            if let Some((es, rest)) = found {
                assert(acc + es =~= es);
            }
        }
        assert(table@.map_values(|s: IndicatorState| s@) =~= entries_map(acc));
    }
    while i < n
        invariant
            i <= n,
            start <= at <= bytes@.len(),
            take_word(bytes@) == Some((magic, bytes@.skip(at_length as int))),
            take_word(bytes@.skip(at_length as int)) == Some((n, bytes@.skip(start as int))),
            magic == MAGIC,
            acc.len() == i,
            keys_distinct(acc),
            table@.map_values(|s: IndicatorState| s@) == entries_map(acc),
            take_entries(bytes@.skip(start as int), n as nat) == after_entries(
                acc,
                take_entries(bytes@.skip(at as int), (n - i) as nat),
            ),
        decreases n - i,
    {
        let (key, state, next) = match read_entry(bytes, at) {
            Some(found) => found,
            None => {
                assert(take_entries(bytes@.skip(at as int), (n - i) as nat) is None);
                return None;
            },
        };
        let ghost e = (key@, state@);
        let ghost more = take_entries(bytes@.skip(next as int), (n - i - 1) as nat);
        proof {
            assert(take_entries(bytes@.skip(at as int), (n - i) as nat) == after_entries(
                seq![e],
                more,
            ));
            assert(after_entries(acc, after_entries(seq![e], more)) == after_entries(
                acc.push(e),
                more,
            )) by {
                if let Some((es, rest)) = more {
                    assert(acc + (seq![e] + es) =~= acc.push(e) + es);
                }
            }
            lemma_entries_map_keys(acc);
            assert(table@.map_values(|s: IndicatorState| s@).contains_key(key@)
                == table@.contains_key(key@));
            assert(table@.contains_key(key@) == has_key(acc, key@));
        }
        if table.contains_key(key.as_str()) {
            proof {
                let j = choose|j: int| 0 <= j < acc.len() && (#[trigger] acc[j]).0 == key@;
                if let Some((es, rest)) = more {
                    let all = acc.push(e) + es;
                    assert(all[j] == acc[j]);
                    assert(all[i as int] == e);
                    assert(!keys_distinct(all));
                }
            }
            return None;
        }
        proof {
            assert(keys_distinct(acc.push(e))) by {
                assert forall|a: int, c: int| 0 <= a < c < acc.push(e).len() implies (
                #[trigger] acc.push(e)[a]).0 != (#[trigger] acc.push(e)[c]).0 by {
                    if c == acc.len() {
                        assert(acc.push(e)[a] == acc[a]);
                        assert(!has_key(acc, key@));
                    } else {
                        assert(acc[a].0 != acc[c].0);
                    }
                }
            }
            assert(acc.push(e).drop_last() =~= acc);
        }
        let ghost before = table@;
        table.insert(key, state);
        proof {
            assert(table@.map_values(|s: IndicatorState| s@) =~= before.map_values(
                |s: IndicatorState| s@,
            ).insert(e.0, e.1));
            acc = acc.push(e);
        }
        at = next;
        i += 1;
    }
    proof {
        assert(acc + Seq::<(Seq<char>, StateView)>::empty() =~= acc);
    }
    if at != bytes.len() {
        return None;
    }
    Some(table)
}

} // verus!
