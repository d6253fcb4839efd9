use vstd::prelude::*;

use vstd::string::*;
use vstd::utf8::{encode_utf8, is_char_boundary};

verus! {

/// Where recordings are kept.
pub const REPLAY_DIRECTORY: &'static str = "./replays";

/// The character of a decimal digit.
pub open spec fn digit_char(d: int) -> char {
    if d == 0 {
        '0'
    } else if d == 1 {
        '1'
    } else if d == 2 {
        '2'
    } else if d == 3 {
        '3'
    } else if d == 4 {
        '4'
    } else if d == 5 {
        '5'
    } else if d == 6 {
        '6'
    } else if d == 7 {
        '7'
    } else if d == 8 {
        '8'
    } else {
        '9'
    }
}

/// `n` written in decimal, without leading zeros.
pub open spec fn decimal_chars(n: nat) -> Seq<char>
    decreases n,
{
    if n < 10 {
        seq![digit_char(n as int)]
    } else {
        decimal_chars(n / 10).push(digit_char((n % 10) as int))
    }
}

/// The value of a run of ASCII decimal digits.
pub open spec fn decimal_value(digits: Seq<u8>) -> nat
    decreases digits.len(),
{
    if digits.len() == 0 {
        0
    } else {
        decimal_value(digits.drop_last()) * 10 + (digits.last() - 48) as nat
    }
}

pub open spec fn all_digits(bytes: Seq<u8>) -> bool {
    forall|i: int| 0 <= i < bytes.len() ==> 48 <= #[trigger] bytes[i] <= 57
}

/// Index of the first `b` in `bytes` at or after `from`, or the length when there is none.
pub open spec fn find_byte(bytes: Seq<u8>, b: u8, from: int) -> int
    decreases bytes.len() - from,
{
    if from < 0 || from >= bytes.len() {
        bytes.len() as int
    } else if bytes[from] == b {
        from
    } else {
        find_byte(bytes, b, from + 1)
    }
}

/// The decimal digit `d` as text.
fn digit_text(d: usize) -> (r: &'static str)
    requires
        d < 10,
    ensures
        r@ == seq![digit_char(d as int)],
{
    if d == 0 {
        proof { reveal_strlit("0"); }
        "0"
    } else if d == 1 {
        proof { reveal_strlit("1"); }
        "1"
    } else if d == 2 {
        proof { reveal_strlit("2"); }
        "2"
    } else if d == 3 {
        proof { reveal_strlit("3"); }
        "3"
    } else if d == 4 {
        proof { reveal_strlit("4"); }
        "4"
    } else if d == 5 {
        proof { reveal_strlit("5"); }
        "5"
    } else if d == 6 {
        proof { reveal_strlit("6"); }
        "6"
    } else if d == 7 {
        proof { reveal_strlit("7"); }
        "7"
    } else if d == 8 {
        proof { reveal_strlit("8"); }
        "8"
    } else {
        proof { reveal_strlit("9"); }
        "9"
    }
}

/// Appends `n` in decimal to `out`.
fn write_decimal(out: &mut String, n: usize)
    ensures
        final(out)@ == old(out)@ + decimal_chars(n as nat),
    decreases n,
{
    if n >= 10 {
        write_decimal(out, n / 10);
    }
    out.append(digit_text(n % 10));
    proof {
        if n < 10 {
            assert(decimal_chars(n as nat) == seq![digit_char(n as int)]);
        } else {
            assert(decimal_chars(n as nat) == decimal_chars((n / 10) as nat).push(digit_char((n % 10) as int)));
        }
        assert(final(out)@ =~= old(out)@ + decimal_chars(n as nat));
    }
}

/// The name, an underscore, the first number in decimal, an underscore, the second number.
fn format_recording_name(name: &String, local: usize, global: usize) -> (r: String)
    ensures
        r@ == name@ + seq!['_'] + decimal_chars(local as nat) + seq!['_'] + decimal_chars(global as nat),
{
    let mut r = String::from_str(name.as_str());
    proof { reveal_strlit("_"); }
    r.append("_");
    write_decimal(&mut r, local);
    r.append("_");
    write_decimal(&mut r, global);
    assert(r@ =~= name@ + seq!['_'] + decimal_chars(local as nat) + seq!['_'] + decimal_chars(global as nat));
    r
}

/// The directory, a slash, the name and `.json`.
fn format_replay_path(directory: &str, name: &String) -> (r: String)
    ensures
        r@ == directory@ + seq!['/'] + name@ + seq!['.', 'j', 's', 'o', 'n'],
{
    let mut r = String::from_str(directory);
    proof {
        reveal_strlit("/");
        reveal_strlit(".json");
    }
    r.append("/");
    r.append(name.as_str());
    r.append(".json");
    assert(r@ =~= directory@ + seq!['/'] + name@ + seq!['.', 'j', 's', 'o', 'n']);
    r
}

/// Index of the first `b` in `bytes` at or after `from`, or the length.
fn find_byte_exec(bytes: &[u8], b: u8, from: usize) -> (r: usize)
    ensures
        r == find_byte(bytes@, b, from as int),
        r <= bytes@.len(),
        from <= bytes@.len() ==> from <= r,
    decreases bytes@.len() - from,
{
    if from >= bytes.len() {
        bytes.len()
    } else if bytes[from] == b {
        from
    } else {
        find_byte_exec(bytes, b, from + 1)
    }
}

/// The value of `bytes[start..end]` read as decimal digits, if they are a nonempty run of
/// digits whose value fits a `usize`.
pub fn parse_decimal(bytes: &[u8], start: usize, end: usize) -> (r: Option<usize>)
    requires
        start <= end <= bytes@.len(),
    ensures
        r is Some <==> start < end && all_digits(bytes@.subrange(start as int, end as int))
            && decimal_value(bytes@.subrange(start as int, end as int)) <= usize::MAX,
        r is Some ==> r->Some_0 == decimal_value(bytes@.subrange(start as int, end as int)),
{
    if start == end {
        return None;
    }
    let mut value: usize = 0;
    let mut i: usize = start;
    while i < end
        invariant
            start <= i <= end <= bytes@.len(),
            all_digits(bytes@.subrange(start as int, i as int)),
            value == decimal_value(bytes@.subrange(start as int, i as int)),
        decreases end - i,
    {
        let ghost prefix = bytes@.subrange(start as int, i as int);
        let ghost next = bytes@.subrange(start as int, i as int + 1);
        assert(next.drop_last() =~= prefix);
        let c = bytes[i];
        if c < 48 || c > 57 {
            proof {
                assert(bytes@.subrange(start as int, end as int)[i - start] == c);
            }
            return None;
        }
        let d = (c - 48) as usize;
        if value > (usize::MAX - d) / 10 {
            proof {
                let field = bytes@.subrange(start as int, end as int);
                assert(field.subrange(0, (i - start + 1) as int) =~= next);
                assert(decimal_value(next) == value * 10 + d);
                assert(value * 10 + d > usize::MAX) by (nonlinear_arith)
                    requires value > (usize::MAX - d) / 10, d <= 9;
                if all_digits(field) {
                    lemma_decimal_prefix_grows(field, (i - start + 1) as int);
                }
            }
            return None;
        }
        proof {
            assert(value * 10 + d <= usize::MAX) by (nonlinear_arith)
                requires value <= (usize::MAX - d) / 10, d <= 9;
        }
        value = value * 10 + d;
        i += 1;
    }
    assert(bytes@.subrange(start as int, i as int) =~= bytes@.subrange(start as int, end as int));
    Some(value)
}

proof fn lemma_decimal_prefix_grows(digits: Seq<u8>, k: int)
    requires
        0 <= k <= digits.len(),
        all_digits(digits),
    ensures
        decimal_value(digits.subrange(0, k)) <= decimal_value(digits),
    decreases digits.len(),
{
    if k < digits.len() {
        let d = digits.drop_last();
        assert(d.subrange(0, k) =~= digits.subrange(0, k));
        assert(all_digits(d));
        lemma_decimal_prefix_grows(d, k);
        assert(decimal_value(d) <= decimal_value(digits)) by (nonlinear_arith)
            requires decimal_value(digits) == decimal_value(d) * 10 + (digits.last() - 48) as nat, 48 <= digits.last();
    } else {
        assert(digits.subrange(0, k) =~= digits);
    }
}

/// `bytes` read `mode_local_global`: an underscore, digits, an underscore, then digits up to
/// the end or the next underscore, with values that fit a `usize`.
pub open spec fn name_fields_ok(b: Seq<u8>) -> bool {
    let i1 = find_byte(b, 95, 0);
    let i2 = find_byte(b, 95, i1 + 1);
    let i3 = find_byte(b, 95, i2 + 1);
    &&& i2 < b.len()
    &&& is_char_boundary(b, i1)
    &&& i1 + 1 < i2
    &&& i2 + 1 < i3
    &&& all_digits(b.subrange(i1 + 1, i2))
    &&& all_digits(b.subrange(i2 + 1, i3))
    &&& decimal_value(b.subrange(i1 + 1, i2)) <= usize::MAX
    &&& decimal_value(b.subrange(i2 + 1, i3)) <= usize::MAX
}

/// The file name `name` up to its first dot reads as a recording name.
pub open spec fn file_name_ok(name: Seq<char>) -> bool {
    let b = encode_utf8(name);
    let dot = find_byte(b, 46, 0);
    is_char_boundary(b, dot) && name_fields_ok(b.subrange(0, dot))
}

/// The bytes of file name `name` up to its first dot.
pub open spec fn file_stem(name: Seq<char>) -> Seq<u8> {
    let b = encode_utf8(name);
    b.subrange(0, find_byte(b, 46, 0))
}

/// The stems of the first `n` file names that read as recording names, in order.
pub open spec fn recording_stems(names: Seq<String>, n: int) -> Seq<Seq<u8>>
    decreases n,
{
    if n <= 0 {
        Seq::empty()
    } else {
        let prev = recording_stems(names, n - 1);
        if file_name_ok(names[n - 1]@) { prev.push(file_stem(names[n - 1]@)) } else { prev }
    }
}

/// `r` is the recording name that the bytes `b` read as.
pub open spec fn read_as(b: Seq<u8>, r: RecordingName) -> bool {
    let i1 = find_byte(b, 95, 0);
    let i2 = find_byte(b, 95, i1 + 1);
    let i3 = find_byte(b, 95, i2 + 1);
    &&& encode_utf8(r.gamemode_name@) == b.subrange(0, i1)
    &&& r.gamemode_index == decimal_value(b.subrange(i1 + 1, i2))
    &&& r.total_recording_index == decimal_value(b.subrange(i2 + 1, i3))
}

/// The name of a recording: its game mode, its index among that mode's recordings and
/// its index among all recordings, written `mode_local_global`.
pub struct RecordingName {
    pub gamemode_name: String,
    pub gamemode_index: usize,
    pub total_recording_index: usize,
}

/// Number of the first `n` recordings whose mode is `mode`.
pub open spec fn count_mode(existing: Seq<RecordingName>, mode: Seq<char>, n: int) -> nat
    decreases n,
{
    if n <= 0 {
        0
    } else {
        count_mode(existing, mode, n - 1) + if existing[n - 1].gamemode_name@ == mode { 1nat } else { 0nat }
    }
}

impl RecordingName {
    /// The name of a new recording of `gamemode_name`, given the recordings already kept.
    pub fn new(gamemode_name: &str, existing: &Vec<RecordingName>) -> (r: RecordingName)
        ensures
            r.gamemode_name@ == gamemode_name@,
            r.gamemode_index == count_mode(existing@, gamemode_name@, existing@.len() as int),
            r.total_recording_index == existing@.len(),
    {
        let name = gamemode_name.to_owned();
        let mut local: usize = 0;
        let mut i: usize = 0;
        while i < existing.len()
            invariant
                i <= existing.len(),
                local <= i,
                name@ == gamemode_name@,
                local == count_mode(existing@, gamemode_name@, i as int),
            decreases existing.len() - i,
        {
            if existing[i].gamemode_name == name {
                local += 1;
            }
            i += 1;
        }
        RecordingName { gamemode_name: name, gamemode_index: local, total_recording_index: existing.len() }
    }

    /// Reads a name written `mode_local_global`; `None` when it is not of that form.
    pub fn from_string(s: &str) -> (r: Option<RecordingName>)
        ensures
            r is Some <==> name_fields_ok(s.spec_bytes()),
            ({
                let b = s.spec_bytes();
                let i1 = find_byte(b, 95, 0);
                let i2 = find_byte(b, 95, i1 + 1);
                let i3 = find_byte(b, 95, i2 + 1);
                &&& r is Some ==> encode_utf8(r->Some_0.gamemode_name@) == b.subrange(0, i1)
                &&& r is Some ==> r->Some_0.gamemode_index == decimal_value(b.subrange(i1 + 1, i2))
                &&& r is Some ==> r->Some_0.total_recording_index == decimal_value(b.subrange(i2 + 1, i3))
            }),
    {
        let bytes = s.as_bytes();
        let i1 = find_byte_exec(bytes, 95, 0);
        if i1 >= bytes.len() {
            return None;
        }
        let i2 = find_byte_exec(bytes, 95, i1 + 1);
        if i2 >= bytes.len() {
            return None;
        }
        let i3 = find_byte_exec(bytes, 95, i2 + 1);
        if !s.is_char_boundary(i1) {
            return None;
        }
        let local = parse_decimal(bytes, i1 + 1, i2);
        let global = parse_decimal(bytes, i2 + 1, i3);
        match (local, global) {
            (Some(gamemode_index), Some(total_recording_index)) => {
                let (head, _) = s.split_at(i1);
                let gamemode_name = head.to_owned();
                proof {
                    assert(head.spec_bytes() == encode_utf8(head@));
                }
                Some(RecordingName { gamemode_name, gamemode_index, total_recording_index })
            },
            _ => None,
        }
    }

    /// The name as text: `mode_local_global`.
    pub fn to_string(&self) -> (r: String)
        ensures
            r@ == self.gamemode_name@ + seq!['_'] + decimal_chars(self.gamemode_index as nat) + seq!['_']
                + decimal_chars(self.total_recording_index as nat),
    {
        format_recording_name(&self.gamemode_name, self.gamemode_index, self.total_recording_index)
    }

    /// The file of the recording: `./replays/mode_local_global.json`.
    pub fn to_filename(&self) -> (r: String)
        ensures
            r@ == REPLAY_DIRECTORY@ + seq!['/'] + self.gamemode_name@ + seq!['_'] + decimal_chars(self.gamemode_index as nat)
                + seq!['_'] + decimal_chars(self.total_recording_index as nat) + seq!['.', 'j', 's', 'o', 'n'],
    {
        let stem = self.to_string();
        format_replay_path(REPLAY_DIRECTORY, &stem)
    }
}

/// The recordings among the file names `names`: each name up to its first dot, read as a
/// recording name; names that are not are skipped.
pub fn get_recordings(names: &Vec<String>) -> (r: Vec<RecordingName>)
    ensures
        r@.len() == recording_stems(names@, names@.len() as int).len(),
        forall|k: int| 0 <= k < r@.len() ==> read_as(recording_stems(names@, names@.len() as int)[k], #[trigger] r@[k]),
{
    let mut r: Vec<RecordingName> = Vec::new();
    let mut i: usize = 0;
    while i < names.len()
        invariant
            i <= names.len(),
            r@.len() == recording_stems(names@, i as int).len(),
            forall|k: int| 0 <= k < r@.len() ==> read_as(recording_stems(names@, i as int)[k], #[trigger] r@[k]),
        decreases names.len() - i,
    {
        let s = names[i].as_str();
        let bytes = s.as_bytes();
        let dot = find_byte_exec(bytes, 46, 0);
        proof {
            assert(s.spec_bytes() == encode_utf8(names@[i as int]@));
        }
        if s.is_char_boundary(dot) {
            let (stem, _) = s.split_at(dot);
            proof {
                assert(stem.spec_bytes() == encode_utf8(names@[i as int]@).subrange(0, dot as int));
            }
            let ghost before = r@;
            match RecordingName::from_string(stem) {
                Some(name) => {
                    r.push(name);
                    proof {
                        assert(recording_stems(names@, i as int + 1) == recording_stems(names@, i as int).push(stem.spec_bytes()));
                        assert forall|k: int| 0 <= k < r@.len() implies read_as(recording_stems(names@, i as int + 1)[k], #[trigger] r@[k]) by {
                            if k < before.len() {
                                assert(r@[k] == before[k]);
                            }
                        }
                    }
                },
                None => {},
            }
        }
        i += 1;
    }
    r
}

/// The file for a new recording of `gamemode_name`, given the recordings already kept.
pub fn get_recording_filename_for_gamemode(gamemode_name: &str, existing: &Vec<RecordingName>) -> (r: String)
    ensures
        r@ == REPLAY_DIRECTORY@ + seq!['/'] + gamemode_name@ + seq!['_'] + decimal_chars(
            count_mode(existing@, gamemode_name@, existing@.len() as int),
        ) + seq!['_'] + decimal_chars(existing@.len()) + seq!['.', 'j', 's', 'o', 'n'],
{
    RecordingName::new(gamemode_name, existing).to_filename()
}

/// The recordings, newest first: by index among all recordings, then by game-mode name
/// (bytes compared in order), then by index among the mode's, all descending.
pub fn get_sorted_recordings(recordings: Vec<RecordingName>) -> (r: Vec<RecordingName>)
    ensures
        r@.to_multiset() == recordings@.to_multiset(),
        forall|i: int, j: int| 0 <= i < j < r@.len() ==> !#[trigger] newer(r@[j], r@[i]),
{
    let mut sorted: Vec<RecordingName> = Vec::new();
    let mut rest = recordings;
    let ghost all = rest@;
    proof {
        assert(all =~= sorted@ + rest@);
    }
    while rest.len() > 0
        invariant
            (sorted@ + rest@).to_multiset() == all.to_multiset(),
            forall|i: int, j: int| 0 <= i < j < sorted@.len() ==> !#[trigger] newer(sorted@[j], sorted@[i]),
        decreases rest.len(),
    {
        let ghost before_sorted = sorted@;
        let ghost before_rest = rest@;
        let item = rest.pop().unwrap();
        let mut k: usize = 0;
        while k < sorted.len() && !newer_exec(&item, &sorted[k])
            invariant
                k <= sorted.len(),
                sorted@ == before_sorted,
                forall|m: int| 0 <= m < k ==> !#[trigger] newer(item, sorted@[m]),
            decreases sorted.len() - k,
        {
            k += 1;
        }
        proof {
            assert forall|m: int| k <= m < sorted@.len() implies !#[trigger] newer(sorted@[m], item) by {
                if k < sorted@.len() {
                    assert(newer(item, sorted@[k as int]));
                    assert(!newer(sorted@[m], sorted@[k as int]) || m == k);
                    lemma_newer_trans(sorted@[m], item, sorted@[k as int]);
                    if m == k {
                        lemma_newer_trans(item, item, item);
                        lemma_bytes_order(encode_utf8(item.gamemode_name@), encode_utf8(item.gamemode_name@), encode_utf8(item.gamemode_name@));
                        lemma_bytes_order(encode_utf8(item.gamemode_name@), encode_utf8(sorted@[m].gamemode_name@), encode_utf8(item.gamemode_name@));
                    }
                }
            }
        }
        sorted.insert(k, item);
        proof {
            let s = sorted@;
            assert(s =~= before_sorted.subrange(0, k as int).push(item) + before_sorted.subrange(k as int, before_sorted.len() as int));
            assert forall|i: int, j: int| 0 <= i < j < s.len() implies !#[trigger] newer(s[j], s[i]) by {
                if i < k && j > k {
                    assert(s[j] == before_sorted[j - 1]);
                    assert(!newer(item, before_sorted[i]));
                } else if j > k && i > k {
                    assert(s[j] == before_sorted[j - 1] && s[i] == before_sorted[i - 1]);
                } else if j < k {
                    assert(s[j] == before_sorted[j] && s[i] == before_sorted[i]);
                } else if i == k {
                    assert(s[j] == before_sorted[j - 1]);
                } else {
                    assert(s[i] == before_sorted[i]);
                }
            }
            assert(before_rest =~= rest@.push(item));
            vstd::seq_lib::lemma_multiset_commutative(before_sorted, before_rest);
            lemma_insert_multiset(before_sorted, rest@, item, k as int);
        }
    }
    proof {
        assert(sorted@ + rest@ =~= sorted@);
    }
    sorted
}

/// `a` was recorded after `b`.
pub open spec fn newer(a: RecordingName, b: RecordingName) -> bool {
    let na = encode_utf8(a.gamemode_name@);
    let nb = encode_utf8(b.gamemode_name@);
    ||| a.total_recording_index > b.total_recording_index
    ||| a.total_recording_index == b.total_recording_index && bytes_after(na, nb)
    ||| a.total_recording_index == b.total_recording_index && na == nb && a.gamemode_index > b.gamemode_index
}

/// `a` comes after `b` in byte-wise lexicographic order.
pub open spec fn bytes_after(a: Seq<u8>, b: Seq<u8>) -> bool
    decreases a.len(),
{
    if a.len() == 0 {
        false
    } else if b.len() == 0 {
        true
    } else if a[0] != b[0] {
        a[0] > b[0]
    } else {
        bytes_after(a.drop_first(), b.drop_first())
    }
}

proof fn lemma_bytes_order(a: Seq<u8>, b: Seq<u8>, c: Seq<u8>)
    ensures
        bytes_after(a, b) && bytes_after(b, c) ==> bytes_after(a, c),
        !bytes_after(a, b) && !bytes_after(b, a) ==> a == b,
        !bytes_after(a, a),
    decreases a.len(),
{
    if a.len() > 0 && b.len() > 0 && c.len() > 0 {
        lemma_bytes_order(a.drop_first(), b.drop_first(), c.drop_first());
    }
    if a.len() > 0 && b.len() > 0 && a[0] == b[0] && !bytes_after(a, b) && !bytes_after(b, a) {
        lemma_bytes_order(a.drop_first(), b.drop_first(), a.drop_first());
        assert(a =~= seq![a[0]] + a.drop_first());
        assert(b =~= seq![b[0]] + b.drop_first());
    }
    if a.len() == 0 && b.len() == 0 {
        assert(a =~= b);
    }
    if a.len() > 0 {
        lemma_bytes_order(a.drop_first(), a.drop_first(), a.drop_first());
    }
}

proof fn lemma_newer_trans(a: RecordingName, b: RecordingName, c: RecordingName)
    ensures
        newer(a, b) && newer(b, c) ==> newer(a, c),
{
    let na = encode_utf8(a.gamemode_name@);
    let nb = encode_utf8(b.gamemode_name@);
    let nc = encode_utf8(c.gamemode_name@);
    lemma_bytes_order(na, nb, nc);
    lemma_bytes_order(nb, nc, na);
}

/// Whether `a[i..]` comes after `b[i..]` byte-wise.
fn bytes_after_from(a: &[u8], b: &[u8], i: usize) -> (r: bool)
    requires
        i <= a@.len(),
        i <= b@.len(),
    ensures
        r == bytes_after(a@.skip(i as int), b@.skip(i as int)),
    decreases a@.len() - i,
{
    if i == a.len() {
        false
    } else if i == b.len() {
        true
    } else if a[i] != b[i] {
        a[i] > b[i]
    } else {
        assert(a@.skip(i as int).drop_first() =~= a@.skip(i as int + 1));
        assert(b@.skip(i as int).drop_first() =~= b@.skip(i as int + 1));
        bytes_after_from(a, b, i + 1)
    }
}

fn newer_exec(a: &RecordingName, b: &RecordingName) -> (r: bool)
    ensures
        r == newer(*a, *b),
{
    if a.total_recording_index != b.total_recording_index {
        return a.total_recording_index > b.total_recording_index;
    }
    let na = a.gamemode_name.as_str().as_bytes();
    let nb = b.gamemode_name.as_str().as_bytes();
    assert(na@.skip(0) =~= na@);
    assert(nb@.skip(0) =~= nb@);
    let ab = bytes_after_from(na, nb, 0);
    let ba = bytes_after_from(nb, na, 0);
    proof {
        lemma_bytes_order(na@, nb@, na@);
        if na@ == nb@ {
            lemma_bytes_order(na@, na@, na@);
        }
    }
    ab || (!ba && a.gamemode_index > b.gamemode_index)
}

proof fn lemma_insert_multiset(s: Seq<RecordingName>, rest: Seq<RecordingName>, item: RecordingName, k: int)
    requires
        0 <= k <= s.len(),
    ensures
        ((s.subrange(0, k).push(item) + s.subrange(k, s.len() as int)) + rest).to_multiset() == (s + rest.push(item)).to_multiset(),
{
    broadcast use vstd::seq_lib::group_to_multiset_ensures;
    let a = s.subrange(0, k);
    let b = s.subrange(k, s.len() as int);
    assert(s =~= a + b);
    vstd::seq_lib::lemma_multiset_commutative(a.push(item) + b, rest);
    vstd::seq_lib::lemma_multiset_commutative(a.push(item), b);
    vstd::seq_lib::lemma_multiset_commutative(a, b);
    vstd::seq_lib::lemma_multiset_commutative(s, rest.push(item));
    vstd::seq_lib::lemma_multiset_commutative(a + b, rest);
    assert(a.push(item).to_multiset() =~= a.to_multiset().insert(item));
    assert(rest.push(item).to_multiset() =~= rest.to_multiset().insert(item));
}

} // verus!
