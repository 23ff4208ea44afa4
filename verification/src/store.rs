//! The durable batch store's naming and ordering rules: a pending entry is a
//! file named by a decimal identifier (seconds since the epoch at persist
//! time) with the recognized extension, entries are listed in ascending
//! identifier order, and an absent store location means no pending entries
//! rather than an error.

use vstd::prelude::*;

verus! {

/// Whether a character is a decimal digit.
pub open spec fn spec_is_digit(c: char) -> bool {
    48 <= c as u32 && c as u32 <= 57
}

/// The numeric value of a digit character.
pub open spec fn spec_digit(c: char) -> int {
    c as u32 - 48
}

/// The value of a digit string, most significant digit first.
pub open spec fn spec_digits_val(s: Seq<char>) -> int
    decreases s.len(),
{
    if s.len() == 0 {
        0
    } else {
        spec_digits_val(s.drop_last()) * 10 + spec_digit(s.last())
    }
}

/// Whether every character of the string is a decimal digit.
pub open spec fn spec_all_digits(s: Seq<char>) -> bool {
    forall|i: int| 0 <= i < s.len() ==> spec_is_digit(#[trigger] s[i])
}

/// The recognized extension of a pending entry, dot included.
pub open spec fn json_suffix() -> Seq<char> {
    seq!['.', 'j', 's', 'o', 'n']
}

/// A canonical decimal identifier: nonempty, digits only, no leading zero,
/// and a value a 64-bit identifier can hold.
pub open spec fn spec_canonical_stem(s: Seq<char>) -> bool {
    &&& s.len() >= 1
    &&& spec_all_digits(s)
    &&& (s.len() > 1 ==> s[0] != '0')
    &&& spec_digits_val(s) <= u64::MAX as int
}

/// Whether a file name denotes a pending entry: a canonical decimal
/// identifier followed by the recognized extension.
pub open spec fn spec_is_pending_name(name: Seq<char>) -> bool {
    &&& name.len() > 5
    &&& name.skip(name.len() - 5) == json_suffix()
    &&& spec_canonical_stem(name.take(name.len() - 5))
}

/// The identifier a pending-entry file name carries, if it carries one.
pub open spec fn spec_pending_id(name: Seq<char>) -> Option<u64> {
    if spec_is_pending_name(name) {
        Some(spec_digits_val(name.take(name.len() - 5)) as u64)
    } else {
        None
    }
}

/// The digit character for a value below ten.
pub open spec fn spec_digit_char(d: int) -> char {
    if d == 0 {
        '0'
    } else if d == 1 {
        '1'
    } else if d == 2 {
        '2'
    } else if d == 3 {
        '3'
    } else if d == 4 {
        '4'
    } else if d == 5 {
        '5'
    } else if d == 6 {
        '6'
    } else if d == 7 {
        '7'
    } else if d == 8 {
        '8'
    } else {
        '9'
    }
}

/// The decimal rendering of a nonnegative value, without leading zeros.
pub open spec fn spec_decimal(n: int) -> Seq<char>
    decreases n,
{
    if n < 10 {
        seq![spec_digit_char(n)]
    } else {
        spec_decimal(n / 10).push(spec_digit_char(n % 10))
    }
}

/// The file name under which an identifier's batch is persisted.
pub open spec fn spec_pending_name(id: u64) -> Seq<char> {
    spec_decimal(id as int) + json_suffix()
}

/// Digit characters round-trip through their values.
proof fn lemma_digit_char_val(d: int)
    requires
        0 <= d <= 9,
    ensures
        spec_is_digit(spec_digit_char(d)),
        spec_digit(spec_digit_char(d)) == d,
{
}

/// A decimal rendering is a canonical digit string and carries its value.
proof fn lemma_decimal_digits(n: int)
    requires
        n >= 0,
    ensures
        spec_all_digits(spec_decimal(n)),
        spec_decimal(n).len() >= 1,
        spec_digits_val(spec_decimal(n)) == n,
        n >= 1 ==> spec_decimal(n)[0] != '0',
        n < 10 ==> spec_decimal(n).len() == 1,
    decreases n,
{
    if n < 10 {
        lemma_digit_char_val(n);
        let s = spec_decimal(n);
        assert(s.len() == 1);
        assert(s.last() == spec_digit_char(n));
        assert(s.drop_last() =~= Seq::<char>::empty());
        assert(spec_digits_val(Seq::<char>::empty()) == 0);
        assert(spec_digits_val(s) == spec_digit(spec_digit_char(n)));
    } else {
        lemma_decimal_digits(n / 10);
        lemma_digit_char_val(n % 10);
        let p = spec_decimal(n / 10);
        let s = spec_decimal(n);
        assert(s == p.push(spec_digit_char(n % 10)));
        assert(s.drop_last() =~= p);
        vstd::arithmetic::div_mod::lemma_fundamental_div_mod(n, 10);
        assert(spec_digits_val(s) == (n / 10) * 10 + (n % 10));
        assert(spec_all_digits(s)) by {
            assert(forall|i: int| 0 <= i < p.len() ==> s[i] == p[i]);
        }
        assert(s[0] == p[0]);
    }
}

/// Appending further digits never shrinks a digit string's value.
proof fn lemma_digits_val_extend(s: Seq<char>, j: int)
    requires
        spec_all_digits(s),
        0 <= j <= s.len(),
    ensures
        spec_digits_val(s) >= 0,
        spec_digits_val(s.take(j)) <= spec_digits_val(s),
    decreases s.len(),
{
    if s.len() == 0 {
        assert(s.take(j) =~= s);
    } else {
        let p = s.drop_last();
        assert(spec_all_digits(p)) by {
            assert(forall|i: int| 0 <= i < p.len() ==> p[i] == s[i]);
        }
        if j == s.len() {
            assert(s.take(j) =~= s);
            lemma_digits_val_extend(p, p.len() as int);
        } else {
            assert(s.take(j) =~= p.take(j));
            lemma_digits_val_extend(p, j);
        }
    }
}

/// A persisted entry's file name is recognized, and carries exactly the
/// identifier it was persisted under.
pub proof fn lemma_pending_name_roundtrip(id: u64)
    ensures
        spec_pending_id(spec_pending_name(id)) == Some(id),
{
    lemma_decimal_digits(id as int);
    let name = spec_pending_name(id);
    let dec = spec_decimal(id as int);
    assert(name.len() == dec.len() + 5);
    assert(name.take(name.len() - 5) =~= dec);
    assert(name.skip(name.len() - 5) =~= json_suffix());
}

/// The one-character string for a digit value.
fn digit_str(d: u64) -> (r: &'static str)
    requires
        d <= 9,
    ensures
        r@ == seq![spec_digit_char(d as int)],
{
    let r = if d == 0 {
        "0"
    } else if d == 1 {
        "1"
    } else if d == 2 {
        "2"
    } else if d == 3 {
        "3"
    } else if d == 4 {
        "4"
    } else if d == 5 {
        "5"
    } else if d == 6 {
        "6"
    } else if d == 7 {
        "7"
    } else if d == 8 {
        "8"
    } else {
        "9"
    };
    proof {
        reveal_strlit("0");
        reveal_strlit("1");
        reveal_strlit("2");
        reveal_strlit("3");
        reveal_strlit("4");
        reveal_strlit("5");
        reveal_strlit("6");
        reveal_strlit("7");
        reveal_strlit("8");
        reveal_strlit("9");
        assert(r@ =~= seq![spec_digit_char(d as int)]);
    }
    r
}

/// Renders a value in decimal, without leading zeros.
fn dec_string(n: u64) -> (r: String)
    ensures
        r@ == spec_decimal(n as int),
    decreases n,
{
    if n < 10 {
        let mut s = String::new();
        s.append(digit_str(n));
        proof {
            assert(s@ =~= spec_decimal(n as int));
        }
        s
    } else {
        let mut s = dec_string(n / 10);
        s.append(digit_str(n % 10));
        proof {
            assert(s@ =~= spec_decimal(n as int));
        }
        s
    }
}

/// The file name under which a batch with the given identifier is persisted.
pub fn pending_file_name(id: u64) -> (r: String)
    ensures
        r@ == spec_pending_name(id),
{
    let mut s = dec_string(id);
    s.append(".json");
    proof {
        reveal_strlit(".json");
        assert(s@ =~= spec_pending_name(id));
    }
    s
}

/// Reads the identifier out of a pending-entry file name; a name that is not
/// a canonical identifier followed by the recognized extension carries none.
pub fn pending_id(name: &str) -> (r: Option<u64>)
    ensures
        r == spec_pending_id(name@),
{
    let n = name.unicode_len();
    if n <= 5 {
        return None;
    }
    let suffix_ok = name.get_char(n - 5) == '.' && name.get_char(n - 4) == 'j' && name.get_char(
        n - 3,
    ) == 's' && name.get_char(n - 2) == 'o' && name.get_char(n - 1) == 'n';
    if !suffix_ok {
        proof {
            assert(name@.skip(n - 5)[0] == name@[n - 5]);
            assert(name@.skip(n - 5)[1] == name@[n - 4]);
            assert(name@.skip(n - 5)[2] == name@[n - 3]);
            assert(name@.skip(n - 5)[3] == name@[n - 2]);
            assert(name@.skip(n - 5)[4] == name@[n - 1]);
            assert(name@.skip(n - 5) != json_suffix());
        }
        return None;
    }
    let stem_len = n - 5;
    if stem_len > 1 && name.get_char(0) == '0' {
        proof {
            assert(name@.take(n - 5)[0] == name@[0]);
        }
        return None;
    }
    let ghost stem = name@.take(n - 5);
    let mut acc: u64 = 0;
    let mut i: usize = 0;
    while i < stem_len
        invariant
            i <= stem_len,
            stem_len == n - 5,
            n == name@.len(),
            5 < n,
            stem == name@.take(n - 5),
            forall|j: int| 0 <= j < i ==> spec_is_digit(#[trigger] stem[j]),
            acc == spec_digits_val(stem.take(i as int)),
        decreases stem_len - i,
    {
        let c = name.get_char(i);
        let cu = c as u32;
        proof {
            assert(stem[i as int] == name@[i as int]);
        }
        if !(48 <= cu && cu <= 57) {
            proof {
                assert(!spec_is_digit(stem[i as int]));
            }
            return None;
        }
        let d: u64 = (cu - 48) as u64;
        let q = (u64::MAX - d) / 10;
        proof {
            vstd::arithmetic::div_mod::lemma_fundamental_div_mod((u64::MAX - d) as int, 10);
            assert(stem.take(i + 1).drop_last() =~= stem.take(i as int));
            assert(stem.take(i + 1).last() == stem[i as int]);
        }
        if acc > q {
            // the running value already exceeds what an identifier can hold,
            // so the full stem cannot be canonical whatever follows
            proof {
                let full = spec_digits_val(stem);
                if spec_all_digits(stem) {
                    assert(spec_digits_val(stem.take(i + 1)) > u64::MAX as int);
                    lemma_digits_val_extend(stem, i + 1);
                    assert(full > u64::MAX as int);
                }
            }
            return None;
        }
        acc = acc * 10 + d;
        i += 1;
    }
    proof {
        assert(stem.take(stem_len as int) =~= stem);
        assert(spec_is_pending_name(name@)) by {
            assert(name@.skip(n - 5) =~= json_suffix());
            assert(stem.len() >= 1);
        }
    }
    Some(acc)
}

/// Strictly ascending order; pending identifiers are pairwise distinct
/// because a store directory holds at most one file per name.
pub open spec fn sorted_strict(s: Seq<u64>) -> bool {
    forall|i: int, j: int| 0 <= i < j < s.len() ==> s[i] < s[j]
}

/// Whether some name of the listing carries the identifier.
pub open spec fn spec_recognized(names: Seq<String>, x: u64) -> bool {
    exists|j: int| 0 <= j < names.len() && spec_pending_id(#[trigger] names[j]@) == Some(x)
}

/// Places an identifier into a strictly sorted sequence, keeping it sorted
/// and ignoring a duplicate.
fn insert_sorted(out: &mut Vec<u64>, x: u64)
    requires
        sorted_strict(old(out)@),
    ensures
        sorted_strict(final(out)@),
        forall|y: u64| final(out)@.contains(y) <==> (old(out)@.contains(y) || y == x),
{
    let n = out.len();
    let mut idx: usize = 0;
    while idx < n && *out.get(idx).unwrap() < x
        invariant
            idx <= n,
            n == out@.len(),
            out == old(out),
            forall|j: int| 0 <= j < idx ==> out@[j] < x,
        decreases n - idx,
    {
        idx += 1;
    }
    if idx < n && *out.get(idx).unwrap() == x {
        proof {
            assert(out@.contains(x)) by {
                assert(out@[idx as int] == x);
            }
        }
        return ;
    }
    let ghost before = out@;
    out.insert(idx, x);
    proof {
        assert(out@ =~= before.take(idx as int) + seq![x] + before.skip(idx as int));
        assert forall|i: int, j: int| 0 <= i < j < out@.len() implies out@[i] < out@[j] by {
            if i < idx && j == idx {
                assert(out@[i] == before[i]);
            } else if i == idx && j > idx {
                assert(out@[j] == before[j - 1]);
                assert(before[j - 1] >= x);
                assert(before[j - 1] != x) by {
                    if j - 1 > idx {
                        assert(before[idx as int] < before[j - 1]);
                        assert(before[idx as int] >= x);
                    }
                }
            } else if i < idx && j > idx {
                assert(out@[i] == before[i] && out@[j] == before[j - 1]);
                if idx < j - 1 {
                    assert(before[i] < before[j - 1]);
                }
            } else if i > idx && j > idx {
                assert(out@[i] == before[i - 1] && out@[j] == before[j - 1]);
            } else if i < idx && j < idx {
                assert(out@[i] == before[i] && out@[j] == before[j]);
            }
        }
        assert(forall|i: int| 0 <= i < idx ==> out@[i] == before[i]);
        assert(out@[idx as int] == x);
        assert(forall|i: int| idx <= i < before.len() ==> out@[i + 1] == before[i]);
        assert forall|y: u64| out@.contains(y) implies (before.contains(y) || y == x) by {
            let i = choose|i: int| 0 <= i < out@.len() && out@[i] == y;
            if i < idx {
                assert(before[i] == y);
                assert(before.contains(y));
            } else if i > idx {
                assert(before[i - 1] == y);
                assert(before.contains(y));
            }
        }
        assert forall|y: u64| before.contains(y) || y == x implies out@.contains(y) by {
            if before.contains(y) {
                let i = choose|i: int| 0 <= i < before.len() && before[i] == y;
                if i < idx {
                    assert(out@[i] == y);
                } else {
                    assert(out@[i + 1] == y);
                }
            } else {
                assert(out@[idx as int] == y);
            }
        }
    }
}

/// Selects the pending entries out of a raw directory listing: exactly the
/// names that carry an identifier are kept, as identifiers, in ascending
/// order — oldest first, consistent with persist time.
pub fn find_cached_measurements(names: &Vec<String>) -> (r: Vec<u64>)
    ensures
        sorted_strict(r@),
        forall|x: u64| r@.contains(x) <==> spec_recognized(names@, x),
{
    let mut out: Vec<u64> = Vec::new();
    let mut i: usize = 0;
    while i < names.len()
        invariant
            i <= names@.len(),
            sorted_strict(out@),
            forall|x: u64|
                out@.contains(x) <==> (exists|j: int|
                    0 <= j < i && spec_pending_id(#[trigger] names@[j]@) == Some(x)),
        decreases names@.len() - i,
    {
        let ghost before = out@;
        match pending_id(names[i].as_str()) {
            Some(id) => {
                insert_sorted(&mut out, id);
            },
            None => {},
        }
        proof {
            assert forall|x: u64|
                out@.contains(x) <==> (exists|j: int|
                    0 <= j < i + 1 && spec_pending_id(#[trigger] names@[j]@) == Some(x)) by {
                if out@.contains(x) {
                    if before.contains(x) {
                        let j = choose|j: int|
                            0 <= j < i && spec_pending_id(#[trigger] names@[j]@) == Some(x);
                        assert(spec_pending_id(names@[j]@) == Some(x));
                    } else {
                        assert(spec_pending_id(names@[i as int]@) == Some(x));
                    }
                }
                if exists|j: int| 0 <= j < i + 1 && spec_pending_id(#[trigger] names@[j]@) == Some(x) {
                    let j = choose|j: int|
                        0 <= j < i + 1 && spec_pending_id(#[trigger] names@[j]@) == Some(x);
                    if j < i {
                        assert(before.contains(x));
                    }
                }
            }
        }
        i += 1;
    }
    out
}

/// What the unverified shell saw when it looked at the store location:
/// the location does not exist, it was read and these are the file names in
/// it, or reading it failed for any other reason.
pub enum StoreScan {
    Missing,
    Listed(Vec<String>),
    Failed,
}

/// The store's failure: the location exists but could not be read. Surfaced,
/// never swallowed, because silently losing pending batches is unacceptable.
#[derive(Clone, Copy, Debug, PartialEq, Eq, Structural)]
pub enum StoreError {
    Access,
}

/// Lists the pending entries of a store location, oldest first. An absent
/// location simply holds no pending entries; any other access failure is an
/// error.
pub fn list_pending(scan: &StoreScan) -> (r: Result<Vec<u64>, StoreError>)
    ensures
        match scan {
            StoreScan::Missing => r matches Ok(ids) && ids@.len() == 0,
            StoreScan::Listed(names) => r matches Ok(ids) && sorted_strict(ids@) && (forall|x: u64|
                ids@.contains(x) <==> spec_recognized(names@, x)),
            StoreScan::Failed => r == Err::<Vec<u64>, StoreError>(StoreError::Access),
        },
{
    match scan {
        StoreScan::Missing => Ok(Vec::new()),
        StoreScan::Listed(names) => Ok(find_cached_measurements(names)),
        StoreScan::Failed => Err(StoreError::Access),
    }
}

} // verus!
