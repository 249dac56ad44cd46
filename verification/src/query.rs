//! Query-string parsing: percent-decoding, `key=value` pair splitting, and
//! the table from each key to the ordered list of values it was given.
//! A malformed pair — wrong number of `=`, or a bad percent escape — is
//! dropped, never reported.

use crate::strutil::{split_on, split_str, string_from_utf8};
use vstd::prelude::*;
use vstd::string::StrSliceExecFns;
use vstd::utf8::{decode_utf8, encode_utf8, valid_utf8};

verus! {

/// Whether `b` is an ASCII hexadecimal digit.
pub open spec fn is_hex_digit_byte(b: u8) -> bool {
    (48 <= b <= 57) || (65 <= b <= 70) || (97 <= b <= 102)
}

/// The value of an ASCII hexadecimal digit.
pub open spec fn hex_val_byte(b: u8) -> nat
    recommends
        is_hex_digit_byte(b),
{
    if 48 <= b <= 57 {
        (b - 48) as nat
    } else if 65 <= b <= 70 {
        (b - 55) as nat
    } else {
        (b - 87) as nat
    }
}

/// Percent-decoding of a byte sequence: `%` followed by two hexadecimal
/// digits decodes to that byte, any other byte passes through, and a `%`
/// not followed by two hexadecimal digits invalidates the whole input.
pub open spec fn pct_decode(s: Seq<u8>) -> Option<Seq<u8>>
    decreases s.len(),
{
    if s.len() == 0 {
        Some(Seq::<u8>::empty())
    } else if s[0] == 37 {  // '%'
        if s.len() >= 3 && is_hex_digit_byte(s[1]) && is_hex_digit_byte(s[2]) {
            match pct_decode(s.skip(3)) {
                Some(r) => Some(seq![(hex_val_byte(s[1]) * 16 + hex_val_byte(s[2])) as u8] + r),
                None => None,
            }
        } else {
            None
        }
    } else {
        match pct_decode(s.skip(1)) {
            Some(r) => Some(seq![s[0]] + r),
            None => None,
        }
    }
}

/// The percent-decoded text of `s`: its UTF-8 bytes decoded escape by
/// escape, the result read back as UTF-8.  `None` when an escape is
/// malformed or the decoded bytes are not valid UTF-8.
pub open spec fn decoded_text(s: Seq<char>) -> Option<Seq<char>> {
    match pct_decode(encode_utf8(s)) {
        Some(bs) => if valid_utf8(bs) {
            Some(decode_utf8(bs))
        } else {
            None
        },
        None => None,
    }
}

/// The value of an ASCII hexadecimal digit byte.
fn hex_digit_val(b: u8) -> (r: Option<u8>)
    ensures
        r is Some <==> is_hex_digit_byte(b),
        r matches Some(v) ==> v as nat == hex_val_byte(b),
{
    if 48 <= b && b <= 57 {
        Some(b - 48)
    } else if 65 <= b && b <= 70 {
        Some(b - 55)
    } else if 97 <= b && b <= 102 {
        Some(b - 87)
    } else {
        None
    }
}

/// Percent-decodes a byte sequence, as `pct_decode` describes.
fn pct_decode_bytes(bytes: &Vec<u8>) -> (r: Option<Vec<u8>>)
    ensures
        r is Some <==> pct_decode(bytes@) is Some,
        r matches Some(out) ==> pct_decode(bytes@) == Some(out@),
{
    let n = bytes.len();
    let mut out: Vec<u8> = Vec::new();
    let mut i: usize = 0;
    proof {
        assert(bytes@.skip(0) =~= bytes@);
        assert(out@ + pct_decode(bytes@)->0 =~= pct_decode(bytes@)->0);
    }
    while i < n
        invariant
            i <= n,
            n == bytes@.len(),
            pct_decode(bytes@.skip(i as int)) matches Some(rest) ==> pct_decode(bytes@) == Some(
                out@ + rest,
            ),
            pct_decode(bytes@.skip(i as int)) is None ==> pct_decode(bytes@) is None,
        decreases n - i,
    {
        let ghost suf = bytes@.skip(i as int);
        proof {
            assert(suf[0] == bytes@[i as int]);
            assert(suf.len() == n - i);
        }
        let b = bytes[i];
        if b == 37 {
            if n - i < 3 {
                proof {
                    assert(pct_decode(suf) is None);
                }
                return None;
            }
            let d0 = match hex_digit_val(bytes[i + 1]) {
                Some(d) => d,
                None => {
                    proof {
                        assert(suf[1] == bytes@[i + 1]);
                        assert(pct_decode(suf) is None);
                    }
                    return None;
                },
            };
            let d1 = match hex_digit_val(bytes[i + 2]) {
                Some(d) => d,
                None => {
                    proof {
                        assert(suf[2] == bytes@[i + 2]);
                        assert(pct_decode(suf) is None);
                    }
                    return None;
                },
            };
            let decoded = d0 * 16 + d1;
            let ghost old_out = out@;
            out.push(decoded);
            proof {
                assert(suf[1] == bytes@[i + 1]);
                assert(suf[2] == bytes@[i + 2]);
                assert(suf.skip(3) =~= bytes@.skip(i + 3));
                assert(decoded as nat == hex_val_byte(suf[1]) * 16 + hex_val_byte(suf[2]));
                let dec3 = pct_decode(bytes@.skip(i + 3));
                if dec3 is Some {
                    let rest = dec3->0;
                    assert(pct_decode(suf) == Some(seq![decoded] + rest));
                    assert(old_out + (seq![decoded] + rest) =~= out@ + rest);
                }
            }
            i = i + 3;
        } else {
            let ghost old_out = out@;
            out.push(b);
            proof {
                assert(suf.skip(1) =~= bytes@.skip(i + 1));
                let dec1 = pct_decode(bytes@.skip(i + 1));
                if dec1 is Some {
                    let rest = dec1->0;
                    assert(pct_decode(suf) == Some(seq![b] + rest));
                    assert(old_out + (seq![b] + rest) =~= out@ + rest);
                }
            }
            i = i + 1;
        }
    }
    proof {
        assert(bytes@.skip(n as int) =~= Seq::<u8>::empty());
        assert(pct_decode(bytes@.skip(n as int)) == Some(Seq::<u8>::empty()));
        assert(out@ + Seq::<u8>::empty() =~= out@);
    }
    Some(out)
}

/// Percent-decodes a string, as `decoded_text` describes: `None` on a
/// malformed escape or when the decoded bytes are not valid UTF-8.
pub fn parse_percent_encoding(input: &str) -> (r: Option<String>)
    ensures
        r is Some <==> decoded_text(input@) is Some,
        r matches Some(out) ==> decoded_text(input@) == Some(out@),
{
    let bytes = input.as_bytes_vec();
    match pct_decode_bytes(&bytes) {
        Some(decoded) => string_from_utf8(decoded),
        None => None,
    }
}

/// The key and value of one `key=value` pair, both percent-decoded: `None`
/// unless the pair contains exactly one `=` and both sides decode.
pub open spec fn query_pair_spec(pair: Seq<char>) -> Option<(Seq<char>, Seq<char>)> {
    let parts = split_on(pair, '=');
    if parts.len() != 2 {
        None
    } else {
        match (decoded_text(parts[0]), decoded_text(parts[1])) {
            (Some(k), Some(v)) => Some((k, v)),
            _ => None,
        }
    }
}

/// Splits one query pair on `=` and percent-decodes both sides, as
/// `query_pair_spec` describes.
pub fn parse_query_pair(pair: &str) -> (r: Option<(String, String)>)
    ensures
        r is Some <==> query_pair_spec(pair@) is Some,
        r matches Some((k, v)) ==> query_pair_spec(pair@) == Some((k@, v@)),
{
    let parts = split_str(pair, '=');
    if parts.len() != 2 {
        return None;
    }
    proof {
        assert(parts.deep_view()[0] == parts@[0]@);
        assert(parts.deep_view()[1] == parts@[1]@);
    }
    let key = match parse_percent_encoding(parts[0].as_str()) {
        Some(k) => k,
        None => {
            return None;
        },
    };
    let value = match parse_percent_encoding(parts[1].as_str()) {
        Some(v) => v,
        None => {
            return None;
        },
    };
    Some((key, value))
}

/// The map built from a sequence of entries, later entries overriding.
pub open spec fn entries_map(es: Seq<(Seq<char>, Seq<Seq<char>>)>) -> Map<
    Seq<char>,
    Seq<Seq<char>>,
>
    decreases es.len(),
{
    if es.len() == 0 {
        Map::<Seq<char>, Seq<Seq<char>>>::empty()
    } else {
        entries_map(es.drop_last()).insert(es.last().0, es.last().1)
    }
}

/// Whether no two entries share a key.
pub open spec fn keys_unique(es: Seq<(Seq<char>, Seq<Seq<char>>)>) -> bool {
    forall|i: int, j: int| 0 <= i < j < es.len() ==> (#[trigger] es[i]).0 != (#[trigger] es[j]).0
}

proof fn lemma_entries_map_get(es: Seq<(Seq<char>, Seq<Seq<char>>)>, i: int)
    requires
        keys_unique(es),
        0 <= i < es.len(),
    ensures
        entries_map(es).contains_key(es[i].0),
        entries_map(es)[es[i].0] == es[i].1,
    decreases es.len(),
{
    if i < es.len() - 1 {
        lemma_entries_map_get(es.drop_last(), i);
        assert(es.drop_last()[i] == es[i]);
        assert(es[i].0 != es.last().0);
    }
}

proof fn lemma_entries_map_absent(es: Seq<(Seq<char>, Seq<Seq<char>>)>, k: Seq<char>)
    requires
        forall|i: int| 0 <= i < es.len() ==> (#[trigger] es[i]).0 != k,
    ensures
        !entries_map(es).contains_key(k),
    decreases es.len(),
{
    if es.len() > 0 {
        lemma_entries_map_absent(es.drop_last(), k);
        assert(es.last() == es[es.len() - 1]);
    }
}

proof fn lemma_entries_map_update(
    es: Seq<(Seq<char>, Seq<Seq<char>>)>,
    i: int,
    vals: Seq<Seq<char>>,
)
    requires
        keys_unique(es),
        0 <= i < es.len(),
    ensures
        entries_map(es.update(i, (es[i].0, vals))) =~= entries_map(es).insert(es[i].0, vals),
    decreases es.len(),
{
    let es2 = es.update(i, (es[i].0, vals));
    if i == es.len() - 1 {
        assert(es2.drop_last() =~= es.drop_last());
        assert(es2.last() == (es[i].0, vals));
    } else {
        assert(es2.drop_last() =~= es.drop_last().update(i, (es[i].0, vals)));
        assert(es.drop_last()[i] == es[i]);
        lemma_entries_map_update(es.drop_last(), i, vals);
        assert(es2.last() == es.last());
        assert(es[i].0 != es.last().0);
    }
}

/// The table from each query key to the ordered list of values it was
/// given, fresh per request.
#[derive(Debug)]
pub struct QueryTable {
    entries: Vec<(String, Vec<String>)>,
}

impl View for QueryTable {
    type V = Map<Seq<char>, Seq<Seq<char>>>;

    closed spec fn view(&self) -> Map<Seq<char>, Seq<Seq<char>>> {
        entries_map(self.entries.deep_view())
    }
}

impl QueryTable {
    /// Internal shape: entry keys are pairwise distinct.
    pub closed spec fn wf(&self) -> bool {
        keys_unique(self.entries.deep_view())
    }

    pub fn new() -> (r: QueryTable)
        ensures
            r@ == Map::<Seq<char>, Seq<Seq<char>>>::empty(),
            r.wf(),
    {
        let r = QueryTable { entries: Vec::new() };
        proof {
            assert(r.entries.deep_view() =~= Seq::<(Seq<char>, Seq<Seq<char>>)>::empty());
        }
        r
    }

    /// Appends `value` to the list for `key`, starting a new list for a key
    /// not seen before.
    pub fn push_value(&mut self, key: String, value: String)
        requires
            old(self).wf(),
        ensures
            final(self).wf(),
            final(self)@ == old(self)@.insert(key@, if old(self)@.contains_key(key@) {
                old(self)@[key@].push(value@)
            } else {
                seq![value@]
            }),
    {
        let n = self.entries.len();
        let mut i: usize = 0;
        while i < n
            invariant
                i <= n,
                n == self.entries@.len(),
                self == old(self),
                self.wf(),
                forall|j: int|
                    0 <= j < i ==> (#[trigger] self.entries.deep_view()[j]).0 != key@,
            decreases n - i,
        {
            if crate::strutil::str_eq(self.entries[i].0.as_str(), key.as_str()) {
                let ghost es = self.entries.deep_view();
                proof {
                    assert(es[i as int].0 == key@);
                    lemma_entries_map_get(es, i as int);
                }
                self.entries[i].1.push(value);
                proof {
                    let es2 = self.entries.deep_view();
                    assert(es2 =~= es.update(i as int, (es[i as int].0, es2[i as int].1)));
                    assert(es2[i as int].1 =~= es[i as int].1.push(value@));
                    lemma_entries_map_update(es, i as int, es2[i as int].1);
                    assert forall|p: int, q: int| 0 <= p < q < es2.len() implies (
                    #[trigger] es2[p]).0 != (#[trigger] es2[q]).0 by {
                        assert(es2[p].0 == es[p].0);
                        assert(es2[q].0 == es[q].0);
                    }
                    assert(final(self)@ =~= old(self)@.insert(key@, old(self)@[key@].push(
                        value@,
                    )));
                }
                return ;
            }
            i = i + 1;
        }
        let ghost es = self.entries.deep_view();
        proof {
            lemma_entries_map_absent(es, key@);
        }
        let mut vals: Vec<String> = Vec::new();
        vals.push(value);
        self.entries.push((key, vals));
        proof {
            let es2 = self.entries.deep_view();
            assert(es2.drop_last() =~= es);
            assert(es2.last().0 == key@);
            assert(es2.last().1 =~= seq![value@]);
            assert forall|p: int, q: int| 0 <= p < q < es2.len() implies (#[trigger] es2[p]).0
                != (#[trigger] es2[q]).0 by {
                if q < es2.len() - 1 {
                    assert(es2[p] == es[p] && es2[q] == es[q]);
                } else {
                    assert(es2[p] == es[p]);
                }
            }
            assert(final(self)@ =~= old(self)@.insert(key@, seq![value@]));
        }
    }

    /// The ordered values recorded for `key`, if any.
    pub fn get<'a>(&'a self, key: &str) -> (r: Option<&'a Vec<String>>)
        requires
            self.wf(),
        ensures
            r is Some <==> self@.contains_key(key@),
            r matches Some(v) ==> self@.contains_key(key@) && v.deep_view() == self@[key@],
    {
        let n = self.entries.len();
        let mut i: usize = 0;
        while i < n
            invariant
                i <= n,
                n == self.entries@.len(),
                self.wf(),
                forall|j: int|
                    0 <= j < i ==> (#[trigger] self.entries.deep_view()[j]).0 != key@,
            decreases n - i,
        {
            if crate::strutil::str_eq(self.entries[i].0.as_str(), key) {
                proof {
                    lemma_entries_map_get(self.entries.deep_view(), i as int);
                }
                return Some(&self.entries[i].1);
            }
            i = i + 1;
        }
        proof {
            lemma_entries_map_absent(self.entries.deep_view(), key@);
        }
        None
    }

    /// How many distinct keys the table holds.
    pub fn num_keys(&self) -> (r: usize)
        requires
            self.wf(),
        ensures
            self@.dom().finite(),
            r == self@.dom().len(),
    {
        proof {
            lemma_entries_map_dom_len(self.entries.deep_view());
        }
        self.entries.len()
    }
}

proof fn lemma_entries_map_dom_len(es: Seq<(Seq<char>, Seq<Seq<char>>)>)
    requires
        keys_unique(es),
    ensures
        entries_map(es).dom().finite(),
        entries_map(es).dom().len() == es.len(),
    decreases es.len(),
{
    if es.len() > 0 {
        lemma_entries_map_dom_len(es.drop_last());
        assert forall|i: int| 0 <= i < es.len() - 1 implies (#[trigger] es.drop_last()[i]).0
            != es.last().0 by {
            assert(es.drop_last()[i] == es[i]);
        }
        lemma_entries_map_absent(es.drop_last(), es.last().0);
        assert(entries_map(es).dom() =~= entries_map(es.drop_last()).dom().insert(es.last().0));
    }
}

/// The table of a sequence of raw pairs, in order: a malformed pair leaves
/// the table unchanged, a new key starts a one-value list, a repeated key
/// appends to its list.
pub open spec fn pairs_table(pairs: Seq<Seq<char>>) -> Map<Seq<char>, Seq<Seq<char>>>
    decreases pairs.len(),
{
    if pairs.len() == 0 {
        Map::<Seq<char>, Seq<Seq<char>>>::empty()
    } else {
        let m = pairs_table(pairs.drop_last());
        match query_pair_spec(pairs.last()) {
            None => m,
            Some((k, v)) => m.insert(k, if m.contains_key(k) {
                m[k].push(v)
            } else {
                seq![v]
            }),
        }
    }
}

/// The query table of a whole raw query string: its `&`-separated pairs,
/// accumulated in order.
pub open spec fn query_table_spec(q: Seq<char>) -> Map<Seq<char>, Seq<Seq<char>>> {
    pairs_table(split_on(q, '&'))
}

/// Splits a raw query string into its table, as `query_table_spec`
/// describes: malformed pairs are silently dropped.
pub fn parse_query(query: &str) -> (r: QueryTable)
    ensures
        r@ == query_table_spec(query@),
        r.wf(),
{
    let pairs = split_str(query, '&');
    let ghost pv = pairs.deep_view();
    let mut table = QueryTable::new();
    let mut i: usize = 0;
    proof {
        assert(pv.take(0) =~= Seq::<Seq<char>>::empty());
    }
    while i < pairs.len()
        invariant
            i <= pairs@.len(),
            pv == pairs.deep_view(),
            pv.len() == pairs@.len(),
            table.wf(),
            table@ == pairs_table(pv.take(i as int)),
        decreases pairs@.len() - i,
    {
        proof {
            assert(pv.take(i + 1).drop_last() =~= pv.take(i as int));
            assert(pv.take(i + 1).last() == pv[i as int]);
        }
        match parse_query_pair(pairs[i].as_str()) {
            Some((k, v)) => {
                table.push_value(k, v);
            },
            None => (),
        }
        i = i + 1;
    }
    proof {
        assert(pv.take(pv.len() as int) =~= pv);
    }
    table
}

} // verus!
