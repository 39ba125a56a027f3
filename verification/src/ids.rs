//! Identifier composition and classification.
//!
//! A current-format identifier is `<namespace><separator><base62 counter>`,
//! where the separator is a fixed non-alphanumeric token that never occurs
//! in a namespace or in the encoder's output. A legacy-format identifier
//! has no separator: it is recognised by an implicit case-transition
//! boundary, a run containing at least one lowercase letter followed by
//! the first uppercase letter, after which no lowercase letter may occur.

use vstd::prelude::*;
use vstd::string::StrSliceExecFns;
use vstd::string::StringExecFns;

use crate::base62::base62_encode;
use crate::base62::encode_spec;
use crate::base62::lemma_encode_len_pos;

verus! {

/// The token that joins a namespace and an encoded counter value.
pub const SEPARATOR: char = '\u{00B7}';

/// ASCII lowercase letter.
pub open spec fn is_lower(c: char) -> bool {
    97 <= c as int <= 122
}

/// ASCII uppercase letter.
pub open spec fn is_upper(c: char) -> bool {
    65 <= c as int <= 90
}

/// ASCII decimal digit.
pub open spec fn is_digit_char(c: char) -> bool {
    48 <= c as int <= 57
}

/// ASCII letter or digit.
pub open spec fn is_alnum(c: char) -> bool {
    is_lower(c) || is_upper(c) || is_digit_char(c)
}

/// ASCII letter.
pub open spec fn is_alpha(c: char) -> bool {
    is_lower(c) || is_upper(c)
}

/// `i` is the first occurrence of the separator in `s`.
pub open spec fn is_first_sep(s: Seq<char>, i: int) -> bool {
    &&& 0 <= i < s.len()
    &&& s[i] == SEPARATOR
    &&& forall|m: int| 0 <= m < i ==> s[m] != SEPARATOR
}

/// A well-formed current-format identifier: the separator occurs, and the
/// suffix after its first occurrence is non-empty and purely alphanumeric.
pub open spec fn current_ok(s: Seq<char>) -> bool {
    exists|i: int|
        is_first_sep(s, i) && i + 1 < s.len() && (forall|m: int|
            i < m < s.len() ==> is_alnum(#[trigger] s[m]))
}

/// `k` is a valid legacy split point of `s`: the first uppercase letter,
/// preceded by at least one lowercase letter, with no lowercase letter
/// anywhere after it.
pub open spec fn is_legacy_split(s: Seq<char>, k: int) -> bool {
    &&& 0 <= k < s.len()
    &&& is_upper(s[k])
    &&& forall|m: int| 0 <= m < k ==> !is_upper(#[trigger] s[m])
    &&& exists|j: int| 0 <= j < k && is_lower(#[trigger] s[j])
    &&& forall|m: int| k < m < s.len() ==> !is_lower(#[trigger] s[m])
}

/// A well-formed legacy-format identifier.
pub open spec fn legacy_ok(s: Seq<char>) -> bool {
    exists|k: int| is_legacy_split(s, k)
}

/// The verdict on an incoming identifier string.
#[derive(Clone, Copy, Debug, PartialEq, Eq, Structural)]
pub enum IdClass {
    Current,
    Legacy,
    Invalid,
}

/// What `classify` returns: the current-format check runs first, the
/// legacy-format check only if it fails.
pub open spec fn classify_spec(s: Seq<char>) -> IdClass {
    if current_ok(s) {
        IdClass::Current
    } else if legacy_ok(s) {
        IdClass::Legacy
    } else {
        IdClass::Invalid
    }
}

fn char_is_lower(c: char) -> (r: bool)
    ensures
        r == is_lower(c),
{
    let u = c as u32;
    97 <= u && u <= 122
}

fn char_is_upper(c: char) -> (r: bool)
    ensures
        r == is_upper(c),
{
    let u = c as u32;
    65 <= u && u <= 90
}

fn char_is_alnum(c: char) -> (r: bool)
    ensures
        r == is_alnum(c),
{
    let u = c as u32;
    (97 <= u && u <= 122) || (65 <= u && u <= 90) || (48 <= u && u <= 57)
}

/// True when every character of `id` is an ASCII letter or digit.
/// The empty string passes: callers that need a non-empty suffix check
/// the length themselves.
pub fn validate_id(id: &str) -> (r: bool)
    ensures
        r == forall|m: int| 0 <= m < id@.len() ==> is_alnum(#[trigger] id@[m]),
{
    let n = id.unicode_len();
    let mut i: usize = 0;
    while i < n
        invariant
            n == id@.len(),
            i <= n,
            forall|m: int| 0 <= m < i ==> is_alnum(#[trigger] id@[m]),
        decreases n - i,
    {
        let c = id.get_char(i);
        if !char_is_alnum(c) {
            return false;
        }
        i = i + 1;
    }
    true
}

/// The scanner's state while it walks a candidate legacy identifier.
/// A string that can reach no valid split point makes the scanner bail
/// out: that is the invalid verdict.
#[derive(Clone, Copy)]
enum ScanState {
    /// Nothing decisive yet: no lowercase letter seen, no uppercase
    /// letter met.
    Scanning,
    /// At least one lowercase letter seen, still before the first
    /// uppercase letter.
    SeenLowercase,
    /// The first uppercase letter stood at this index, preceded by a
    /// lowercase letter: the candidate split point.
    FoundSplit(usize),
}

/// True when `raw_id` is a well-formed legacy-format identifier: at least
/// one lowercase letter precedes the first uppercase letter, and no
/// lowercase letter follows it.
pub fn validate_legacy_id(raw_id: &str) -> (r: bool)
    ensures
        r == legacy_ok(raw_id@),
{
    let n = raw_id.unicode_len();
    let mut state = ScanState::Scanning;
    let mut i: usize = 0;
    while i < n
        invariant
            n == raw_id@.len(),
            i <= n,
            state is Scanning ==> forall|m: int|
                0 <= m < i ==> !is_upper(#[trigger] raw_id@[m]) && !is_lower(raw_id@[m]),
            state is SeenLowercase ==> {
                &&& forall|m: int| 0 <= m < i ==> !is_upper(#[trigger] raw_id@[m])
                &&& exists|j: int| 0 <= j < i && is_lower(#[trigger] raw_id@[j])
            },
            state matches ScanState::FoundSplit(k) ==> {
                &&& k < i
                &&& is_legacy_split(raw_id@.take(i as int), k as int)
            },
        decreases n - i,
    {
        let c = raw_id.get_char(i);
        match state {
            ScanState::Scanning => {
                if char_is_upper(c) {
                    // the first uppercase letter arrived before any
                    // lowercase letter: no index can be a split point
                    proof {
                        assert forall|k: int| !is_legacy_split(raw_id@, k) by {
                            if 0 <= k < i {
                                assert(!is_upper(raw_id@[k]));
                            } else if i < k < raw_id@.len() {
                                assert(is_upper(raw_id@[i as int]));
                            }
                        }
                    }
                    return false;
                }
                if char_is_lower(c) {
                    state = ScanState::SeenLowercase;
                }
            },
            ScanState::SeenLowercase => {
                if char_is_upper(c) {
                    proof {
                        let s = raw_id@.take(i + 1);
                        assert(is_upper(s[i as int]));
                        let j = choose|j: int| 0 <= j < i && is_lower(#[trigger] raw_id@[j]);
                        assert(is_lower(s[j]));
                        assert(is_legacy_split(s, i as int));
                    }
                    state = ScanState::FoundSplit(i);
                }
            },
            ScanState::FoundSplit(k) => {
                if char_is_lower(c) {
                    // the first uppercase letter is unique, so any split
                    // point must be the recorded one, which a later
                    // lowercase letter disqualifies
                    proof {
                        assert forall|k2: int| !is_legacy_split(raw_id@, k2) by {
                            if is_legacy_split(raw_id@, k2) {
                                if k2 < k {
                                    assert(!is_upper(raw_id@.take(i as int)[k2]));
                                } else if k < k2 {
                                    assert(!is_upper(raw_id@[k as int]));
                                    assert(is_upper(raw_id@.take(i as int)[k as int]));
                                } else {
                                    assert(is_lower(raw_id@[i as int]));
                                }
                            }
                        }
                    }
                    return false;
                }
            },
        }
        proof {
            match state {
                ScanState::FoundSplit(k) => {
                    let s1 = raw_id@.take(i as int);
                    let s2 = raw_id@.take(i + 1);
                    assert(forall|m: int| 0 <= m < i ==> s2[m] == #[trigger] s1[m]);
                    if i != k {
                        assert(!is_lower(s2[i as int]));
                    }
                    assert(is_legacy_split(s2, k as int));
                },
                _ => {},
            }
        }
        i = i + 1;
    }
    proof {
        assert(raw_id@.take(n as int) =~= raw_id@);
    }
    match state {
        ScanState::FoundSplit(k) => {
            proof {
                assert(is_legacy_split(raw_id@, k as int));
            }
            true
        },
        _ => {
            proof {
                assert forall|j: int| !is_legacy_split(raw_id@, j) by {
                    if 0 <= j < raw_id@.len() {
                        assert(!is_upper(raw_id@[j]));
                    }
                }
            }
            false
        },
    }
}

/// The index of the first separator in `raw`, if any.
fn first_sep_index(raw: &str) -> (r: Option<usize>)
    ensures
        match r {
            Some(i) => is_first_sep(raw@, i as int),
            None => forall|m: int| 0 <= m < raw@.len() ==> raw@[m] != SEPARATOR,
        },
{
    let n = raw.unicode_len();
    let mut i: usize = 0;
    while i < n
        invariant
            n == raw@.len(),
            i <= n,
            forall|m: int| 0 <= m < i ==> raw@[m] != SEPARATOR,
        decreases n - i,
    {
        let c = raw.get_char(i);
        if c as u32 == 0xB7 {
            proof {
                assert(c == SEPARATOR);
            }
            return Some(i);
        }
        proof {
            assert(c != SEPARATOR);
        }
        i = i + 1;
    }
    None
}

/// Decides whether `raw` is a current-format identifier, a legacy-format
/// identifier, or invalid. The current-format check runs first; the
/// legacy-format check is only attempted when it fails.
pub fn classify(raw: &str) -> (r: IdClass)
    ensures
        r == classify_spec(raw@),
{
    let n = raw.unicode_len();
    let sep = first_sep_index(raw);
    let current = match sep {
        Some(i) => {
            if i + 1 < n {
                let mut j: usize = i + 1;
                let mut ok = true;
                while j < n
                    invariant
                        n == raw@.len(),
                        i < j <= n,
                        ok == forall|m: int| i < m < j ==> is_alnum(#[trigger] raw@[m]),
                    decreases n - j,
                {
                    if !char_is_alnum(raw.get_char(j)) {
                        ok = false;
                    }
                    j = j + 1;
                }
                proof {
                    if ok {
                        assert(is_first_sep(raw@, i as int));
                        assert(current_ok(raw@));
                    } else {
                        assert forall|i2: int| !(is_first_sep(raw@, i2) && i2 + 1 < raw@.len()
                            && (forall|m: int|
                            i2 < m < raw@.len() ==> is_alnum(#[trigger] raw@[m]))) by {
                            if is_first_sep(raw@, i2) {
                                assert(raw@[i2] == SEPARATOR);
                                assert(i2 == i as int);
                            }
                        }
                    }
                }
                ok
            } else {
                proof {
                    assert forall|i2: int| !(is_first_sep(raw@, i2) && i2 + 1 < raw@.len()
                        && (forall|m: int| i2 < m < raw@.len() ==> is_alnum(#[trigger] raw@[m])))
                        by {
                        if is_first_sep(raw@, i2) {
                            assert(raw@[i2] == SEPARATOR);
                            assert(i2 == i as int);
                        }
                    }
                }
                false
            }
        },
        None => {
            proof {
                assert forall|i2: int| !is_first_sep(raw@, i2) by {
                    if 0 <= i2 < raw@.len() {
                        assert(raw@[i2] != SEPARATOR);
                    }
                }
            }
            false
        },
    };
    if current {
        IdClass::Current
    } else if validate_legacy_id(raw) {
        IdClass::Legacy
    } else {
        IdClass::Invalid
    }
}

/// The namespace part of an identifier: everything before the first
/// separator. `None` when the string holds no separator.
pub fn namespace_of(id: &str) -> (r: Option<String>)
    ensures
        match r {
            Some(ns) => is_first_sep(id@, ns@.len() as int) && ns@ == id@.take(ns@.len() as int),
            None => forall|m: int| 0 <= m < id@.len() ==> id@[m] != SEPARATOR,
        },
{
    match first_sep_index(id) {
        Some(i) => {
            let ns = id.substring_char(0, i).to_owned();
            proof {
                assert(ns@ =~= id@.take(i as int));
            }
            Some(ns)
        },
        None => None,
    }
}

/// A current-format identifier as a sequence: namespace, separator,
/// encoded counter value.
pub open spec fn id_spec(ns: Seq<char>, n: nat) -> Seq<char> {
    ns + seq![SEPARATOR] + encode_spec(n)
}

/// The counter value to encode, given the prior state of the counter row:
/// a row that did not exist counts as zero.
pub open spec fn prior_counter(prior: Option<u64>) -> nat {
    match prior {
        None => 0,
        Some(v) => v as nat,
    }
}

/// Joins a namespace and a counter value into a current-format identifier.
pub fn make_id(namespace: &str, counter: u64) -> (r: String)
    ensures
        r@ == id_spec(namespace@, counter as nat),
{
    let mut s = namespace.to_owned();
    s.push(SEPARATOR);
    let enc = base62_encode(counter);
    let r = s.concat(enc.as_str());
    proof {
        assert(r@ =~= id_spec(namespace@, counter as nat));
    }
    r
}

/// Builds the identifier from the document that the counter store held
/// before the atomic increment: an absent row encodes as zero, an existing
/// row encodes its pre-increment counter value.
pub fn id_from_prior(namespace: &str, prior: Option<u64>) -> (r: String)
    ensures
        r@ == id_spec(namespace@, prior_counter(prior)),
{
    match prior {
        None => make_id(namespace, 0),
        Some(v) => make_id(namespace, v),
    }
}

/// Every symbol the encoder emits is alphanumeric.
pub proof fn lemma_encode_alnum(n: nat)
    ensures
        forall|m: int| 0 <= m < encode_spec(n).len() ==> is_alnum(#[trigger] encode_spec(n)[m]),
    decreases n,
{
    if n < 62 {
        assert(encode_spec(n)[0] == crate::base62::digit_char(n as int));
    } else {
        lemma_encode_alnum(n / 62);
        assert forall|m: int| 0 <= m < encode_spec(n).len() implies is_alnum(
            #[trigger] encode_spec(n)[m],
        ) by {
            if m < encode_spec(n / 62).len() {
                assert(encode_spec(n)[m] == encode_spec(n / 62)[m]);
            } else {
                assert(encode_spec(n)[m] == crate::base62::digit_char((n % 62) as int));
            }
        }
    }
}

/// Law: an identifier the allocator produces always classifies as
/// current-format, and splitting it on the first separator recovers the
/// namespace exactly.
pub proof fn lemma_classify_round_trip(ns: Seq<char>, n: nat)
    requires
        forall|m: int| 0 <= m < ns.len() ==> ns[m] != SEPARATOR,
    ensures
        classify_spec(id_spec(ns, n)) == IdClass::Current,
        is_first_sep(id_spec(ns, n), ns.len() as int),
        id_spec(ns, n).take(ns.len() as int) == ns,
{
    let s = id_spec(ns, n);
    lemma_encode_len_pos(n);
    lemma_encode_alnum(n);
    assert(s[ns.len() as int] == SEPARATOR);
    assert(forall|m: int| 0 <= m < ns.len() ==> s[m] == ns[m]);
    assert(is_first_sep(s, ns.len() as int));
    assert forall|m: int| ns.len() < m < s.len() implies is_alnum(#[trigger] s[m]) by {
        assert(s[m] == encode_spec(n)[m - ns.len() - 1]);
    }
    assert(current_ok(s));
    assert(s.take(ns.len() as int) =~= ns);
}

/// Law: identifiers allocated under one namespace from distinct counter
/// values are distinct strings.
pub proof fn lemma_id_spec_injective(ns: Seq<char>, n1: nat, n2: nat)
    requires
        n1 != n2,
    ensures
        id_spec(ns, n1) != id_spec(ns, n2),
{
    if id_spec(ns, n1) == id_spec(ns, n2) {
        let s1 = id_spec(ns, n1);
        let s2 = id_spec(ns, n2);
        assert(encode_spec(n1) =~= s1.skip(ns.len() as int + 1));
        assert(encode_spec(n2) =~= s2.skip(ns.len() as int + 1));
        crate::base62::lemma_encode_injective(n1, n2);
    }
}

} // verus!
