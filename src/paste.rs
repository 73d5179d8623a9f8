use vstd::prelude::*;
use vstd::slice::slice_subrange;
use vstd::string::*;
use rand::distributions::Alphanumeric;
use rand::Rng;

use crate::{DEFAULT_EXTENSION, DEFAULT_MIME_TYPE};

verus! {

/// Length of a freshly generated identifier.
pub const NAME_LEN: usize = 3;

/// How many random names `random_file_name` draws before it gives up.
pub const MAX_DRAWS: usize = 64;

/// How many leading bytes of a buffer content sniffing inspects, as infer
/// itself does when it sniffs a file.
pub const SNIFF_LEN: usize = 8192;

/// The leading bytes of a buffer that content sniffing inspects.
pub open spec fn sniff_window(data: Seq<u8>) -> Seq<u8> {
    if data.len() <= SNIFF_LEN {
        data
    } else {
        data.take(SNIFF_LEN as int)
    }
}

/// What content sniffing reports for a buffer: its MIME type and extension,
/// or nothing when no known signature matches.
pub uninterp spec fn sniffed_of(data: Seq<u8>) -> Option<(Seq<char>, Seq<char>)>;

pub open spec fn sniff_view(r: Option<(&'static str, &'static str)>) -> Option<(Seq<char>, Seq<char>)> {
    match r {
        Some(p) => Some((p.0@, p.1@)),
        None => None,
    }
}

pub open spec fn pair_view(r: (&'static str, &'static str)) -> (Seq<char>, Seq<char>) {
    (r.0@, r.1@)
}

/// The classification of a buffer from what sniffing reported: the sniffed
/// pair, or the plain-text default when nothing matched. A sniffed
/// `text/plain` is the default type already, so it needs no rewriting.
pub open spec fn classified(sniffed: Option<(Seq<char>, Seq<char>)>) -> (Seq<char>, Seq<char>) {
    match sniffed {
        Some(p) => p,
        None => (DEFAULT_MIME_TYPE@, DEFAULT_EXTENSION@),
    }
}

/// The restrictive policy: a MIME type is accepted when it begins with `text`.
pub open spec fn is_text(mime: Seq<char>) -> bool {
    &&& mime.len() >= 4
    &&& mime[0] == 't'
    &&& mime[1] == 'e'
    &&& mime[2] == 'x'
    &&& mime[3] == 't'
}

/// Whether the restrictive policy accepts a buffer.
pub open spec fn content_permitted(data: Seq<u8>) -> bool {
    is_text(classified(sniffed_of(sniff_window(data))).0)
}

pub open spec fn is_alphanumeric(c: char) -> bool {
    ('A' <= c && c <= 'Z') || ('a' <= c && c <= 'z') || ('0' <= c && c <= '9')
}

/// A well-formed identifier: `NAME_LEN` ASCII letters or digits.
pub open spec fn is_identifier(s: Seq<char>) -> bool {
    &&& s.len() == NAME_LEN
    &&& forall|i: int| 0 <= i < s.len() ==> is_alphanumeric(#[trigger] s[i])
}

pub open spec fn names_view(names: Seq<String>) -> Seq<Seq<char>> {
    names.map_values(|s: String| s@)
}

/// No name among `names` has the shape of an identifier, so no draw can clash.
pub open spec fn holds_no_identifier(names: Seq<String>) -> bool {
    forall|i: int| 0 <= i < names.len() ==> !is_identifier(#[trigger] names[i]@)
}

/// Relies on infer::get: the first type of infer's built-in table whose
/// signature matches `data`, with its MIME type and extension; every MIME
/// type and every extension in that table is a non-empty string. Some
/// matchers walk the buffer (zstd frames recursively, compound documents
/// through cfb's parser), so the buffer is bounded to what infer's own file
/// sniffing reads.
#[verifier::external_body]
fn sniff(data: &[u8]) -> (r: Option<(&'static str, &'static str)>)
    requires
        data@.len() <= SNIFF_LEN,
    ensures
        sniff_view(r) == sniffed_of(data@),
        r matches Some(p) ==> p.0@.len() > 0 && p.1@.len() > 0,
{
    infer::get(data).map(|kind| (kind.mime_type(), kind.extension()))
}

/// Relies on rand's thread_rng sampled with Alphanumeric: `len` characters,
/// each drawn from `A-Z`, `a-z` and `0-9`.
#[verifier::external_body]
fn random_alphanumeric(len: usize) -> (r: String)
    ensures
        r@.len() == len,
        forall|i: int| 0 <= i < r@.len() ==> is_alphanumeric(#[trigger] r@[i]),
{
    rand::thread_rng().sample_iter(Alphanumeric).take(len).map(char::from).collect::<String>()
}

/// Why a paste cannot be stored.
#[derive(Clone, Copy, Debug, PartialEq, Eq, Structural)]
pub enum PasteError {
    /// the content policy refuses the paste's type
    NotPermitted,
    /// every identifier drawn was already taken
    NoFreeName,
}

/// Classification depends on the bytes alone: equal buffers are classified
/// alike, and a buffer that no signature matches gets the plain-text default.
pub proof fn lemma_classification_deterministic(a: Seq<u8>, b: Seq<u8>)
    requires
        a == b,
    ensures
        classified(sniffed_of(sniff_window(a))) == classified(sniffed_of(sniff_window(b))),
        sniffed_of(sniff_window(a)) is None ==> classified(sniffed_of(sniff_window(a))) == (
            DEFAULT_MIME_TYPE@,
            DEFAULT_EXTENSION@,
        ),
{
}

/// How many identifiers there are: 62 characters in each of 3 places.
pub const NAME_COUNT: u32 = 238_328;

/// The `i`-th character of the alphabet of identifiers: `A-Z`, `a-z`, `0-9`.
pub open spec fn alphabet_char(i: int) -> char {
    if i < 26 {
        (65 + i) as u8 as char
    } else if i < 52 {
        (97 + i - 26) as u8 as char
    } else {
        (48 + i - 52) as u8 as char
    }
}

pub open spec fn alphabet_index(c: char) -> int {
    if 'A' <= c && c <= 'Z' {
        c as int - 65
    } else if 'a' <= c && c <= 'z' {
        c as int - 97 + 26
    } else {
        c as int - 48 + 52
    }
}

/// The `k`-th identifier, in the order of the alphabet.
pub open spec fn name_at(k: int) -> Seq<char> {
    seq![alphabet_char(k / 3844), alphabet_char((k / 62) % 62), alphabet_char(k % 62)]
}

proof fn lemma_alphabet(i: int)
    requires
        0 <= i < 62,
    ensures
        is_alphanumeric(alphabet_char(i)),
        alphabet_index(alphabet_char(i)) == i,
{
}

/// Every identifier has its place in the order of the alphabet.
proof fn lemma_name_at_covers(id: Seq<char>)
    requires
        is_identifier(id),
    ensures
        0 <= alphabet_index(id[0]) * 3844 + alphabet_index(id[1]) * 62 + alphabet_index(id[2]) < NAME_COUNT,
        name_at(alphabet_index(id[0]) * 3844 + alphabet_index(id[1]) * 62 + alphabet_index(id[2])) == id,
{
    let a = alphabet_index(id[0]);
    let b = alphabet_index(id[1]);
    let c = alphabet_index(id[2]);
    assert(is_alphanumeric(id[0]) && is_alphanumeric(id[1]) && is_alphanumeric(id[2]));
    let k = a * 3844 + b * 62 + c;
    assert(0 <= b * 62 + c < 3844 && 0 <= k < 238_328) by (nonlinear_arith)
        requires
            0 <= a < 62,
            0 <= b < 62,
            0 <= c < 62,
            k == a * 3844 + b * 62 + c,
    ;
    vstd::arithmetic::div_mod::lemma_fundamental_div_mod_converse(k, 3844, a, b * 62 + c);
    assert(k == (a * 62 + b) * 62 + c) by (nonlinear_arith)
        requires
            k == a * 3844 + b * 62 + c,
    ;
    vstd::arithmetic::div_mod::lemma_fundamental_div_mod_converse(k, 62, a * 62 + b, c);
    vstd::arithmetic::div_mod::lemma_fundamental_div_mod_converse(a * 62 + b, 62, a, b);
    assert(name_at(k) =~= id);
}

/// Every place in the order of the alphabet holds an identifier.
proof fn lemma_name_at_is_identifier(k: int)
    requires
        0 <= k < NAME_COUNT,
    ensures
        is_identifier(name_at(k)),
{
    assert(0 <= k / 3844 < 62) by (nonlinear_arith)
        requires
            0 <= k < 238_328,
    ;
    lemma_alphabet(k / 3844);
    lemma_alphabet((k / 62) % 62);
    lemma_alphabet(k % 62);
}

pub open spec fn place_of(id: Seq<char>) -> int {
    alphabet_index(id[0]) * 3844 + alphabet_index(id[1]) * 62 + alphabet_index(id[2])
}

/// Each place holds one identifier: its own.
proof fn lemma_place_of_name_at(k: int)
    requires
        0 <= k < NAME_COUNT,
    ensures
        place_of(name_at(k)) == k,
{
    vstd::arithmetic::div_mod::lemma_fundamental_div_mod(k, 62);
    vstd::arithmetic::div_mod::lemma_fundamental_div_mod(k / 62, 62);
    vstd::arithmetic::div_mod::lemma_div_denominator(k, 62, 62);
    lemma_name_at_is_identifier(k);
    assert(0 <= k / 3844 < 62) by (nonlinear_arith)
        requires
            0 <= k < 238_328,
    ;
    assert(0 <= k / 62);
    lemma_alphabet(k / 3844);
    lemma_alphabet((k / 62) % 62);
    lemma_alphabet(k % 62);
    assert(k == (k / 3844) * 3844 + ((k / 62) % 62) * 62 + k % 62) by (nonlinear_arith)
        requires
            k == 62 * (k / 62) + k % 62,
            k / 62 == 62 * ((k / 62) / 62) + (k / 62) % 62,
            (k / 62) / 62 == k / 3844,
    ;
}

/// The place of a character in the alphabet of identifiers.
fn char_place(c: char) -> (r: Option<u32>)
    ensures
        r matches Some(i) ==> i < 62 && alphabet_char(i as int) == c && alphabet_index(c) == i,
        r is None ==> !is_alphanumeric(c),
{
    if 'A' <= c && c <= 'Z' {
        Some(c as u32 - 65)
    } else if 'a' <= c && c <= 'z' {
        Some(c as u32 - 97 + 26)
    } else if '0' <= c && c <= '9' {
        Some(c as u32 - 48 + 52)
    } else {
        None
    }
}

/// The place of a name in the order of identifiers; `None` when it is no
/// identifier.
fn name_place(s: &String) -> (r: Option<u32>)
    ensures
        r matches Some(k) ==> k < NAME_COUNT && is_identifier(s@) && place_of(s@) == k,
        r is None ==> !is_identifier(s@),
{
    let t = s.as_str();
    if t.unicode_len() != 3 {
        return None;
    }
    let a = match char_place(t.get_char(0)) {
        Some(a) => a,
        None => return None,
    };
    let b = match char_place(t.get_char(1)) {
        Some(b) => b,
        None => return None,
    };
    let c = match char_place(t.get_char(2)) {
        Some(c) => c,
        None => return None,
    };
    assert(a * 3844 + b * 62 + c < 238_328) by (nonlinear_arith)
        requires
            a < 62,
            b < 62,
            c < 62,
    ;
    assert forall|i: int| 0 <= i < s@.len() implies is_alphanumeric(#[trigger] s@[i]) by {
        assert(i == 0 || i == 1 || i == 2);
    }
    Some(a * 3844 + b * 62 + c)
}

/// Relies on String::push: appends one character to the end.
#[verifier::external_body]
fn push_char(s: &mut String, c: char)
    ensures
        final(s)@ == old(s)@.push(c),
{
    s.push(c)
}

fn alphabet(i: u32) -> (r: char)
    requires
        i < 62,
    ensures
        r == alphabet_char(i as int),
{
    let b = i as u8;
    if b < 26 {
        (65 + b) as char
    } else if b < 52 {
        (97 + b - 26) as char
    } else {
        (48 + b - 52) as char
    }
}

/// The `k`-th identifier.
fn candidate(k: u32) -> (r: String)
    requires
        k < NAME_COUNT,
    ensures
        r@ == name_at(k as int),
{
    assert(k / 3844 < 62) by (nonlinear_arith)
        requires
            k < 238_328,
    ;
    let mut s = String::new();
    push_char(&mut s, alphabet(k / 3844));
    push_char(&mut s, alphabet((k / 62) % 62));
    push_char(&mut s, alphabet(k % 62));
    assert(s@ =~= name_at(k as int));
    s
}

/// A paste: the bytes of one upload.
pub struct Paste {
    /// data to store
    pub data: Vec<u8>,
}

impl Paste {
    /// Classification from what sniffing reported.
    pub fn classify_sniffed(sniffed: Option<(&'static str, &'static str)>) -> (r: (
        &'static str,
        &'static str,
    ))
        ensures
            pair_view(r) == classified(sniff_view(sniffed)),
    {
        match sniffed {
            Some(p) => p,
            None => (DEFAULT_MIME_TYPE, DEFAULT_EXTENSION),
        }
    }

    /// returns data `mime_type` and `extension` as tuple, judged from the
    /// leading `SNIFF_LEN` bytes
    pub fn mime_type(data: &[u8]) -> (r: (&'static str, &'static str))
        ensures
            pair_view(r) == classified(sniffed_of(sniff_window(data@))),
            r.0@.len() > 0,
            r.1@.len() > 0,
            sniffed_of(sniff_window(data@)) is None ==> pair_view(r) == (DEFAULT_MIME_TYPE@, DEFAULT_EXTENSION@),
    {
        proof {
            reveal_strlit("text/plain");
            reveal_strlit("txt");
        }
        let window = if data.len() <= SNIFF_LEN {
            data
        } else {
            slice_subrange(data, 0, SNIFF_LEN)
        };
        Paste::classify_sniffed(sniff(window))
    }

    /// Whether the restrictive policy accepts a MIME type.
    pub fn is_text_type(mime: &str) -> (r: bool)
        ensures
            r == is_text(mime@),
    {
        if mime.unicode_len() < 4 {
            return false;
        }
        mime.get_char(0) == 't' && mime.get_char(1) == 'e' && mime.get_char(2) == 'x'
            && mime.get_char(3) == 't'
    }

    /// Whether the restrictive policy accepts a buffer.
    pub fn permits(data: &[u8]) -> (r: bool)
        ensures
            r == content_permitted(data@),
    {
        let (mime, _) = Paste::mime_type(data);
        Paste::is_text_type(mime)
    }

    /// Whether `name` is not among `taken`.
    pub fn is_free(name: &String, taken: &Vec<String>) -> (r: bool)
        ensures
            r == !names_view(taken@).contains(name@),
    {
        let mut i: usize = 0;
        while i < taken.len()
            invariant
                0 <= i <= taken@.len(),
                forall|j: int| 0 <= j < i ==> taken@[j]@ != name@,
            decreases taken@.len() - i,
        {
            if taken[i] == *name {
                assert(names_view(taken@)[i as int] == name@);
                return false;
            }
            i = i + 1;
        }
        proof {
            if names_view(taken@).contains(name@) {
                let k = choose|k: int| 0 <= k < names_view(taken@).len() && names_view(taken@)[k] == name@;
                assert(taken@[k]@ == name@);
            }
        }
        true
    }

    /// Draws random identifiers until one is not among `taken`, the names
    /// present in the storage directory. After `MAX_DRAWS` draws that all
    /// clashed it walks every identifier in the order of the alphabet and
    /// takes the first free one; `None` only when every identifier is taken.
    /// Where no taken name has the shape of an identifier the first draw is
    /// kept.
    pub fn random_file_name(taken: &Vec<String>) -> (r: Option<String>)
        ensures
            r matches Some(name) ==> is_identifier(name@) && !names_view(taken@).contains(name@),
            holds_no_identifier(taken@) ==> r is Some,
            r is None ==> forall|id: Seq<char>|
                #[trigger] is_identifier(id) ==> names_view(taken@).contains(id),
    {
        let mut n: usize = 0;
        while n < MAX_DRAWS
            invariant
                n <= MAX_DRAWS,
                holds_no_identifier(taken@) ==> n == 0,
            decreases MAX_DRAWS - n,
        {
            let name = random_alphanumeric(NAME_LEN);
            proof {
                if holds_no_identifier(taken@) && names_view(taken@).contains(name@) {
                    let k = choose|k: int|
                        0 <= k < names_view(taken@).len() && names_view(taken@)[k] == name@;
                    assert(taken@[k]@ == name@);
                    assert(!is_identifier(taken@[k]@));
                }
            }
            if Paste::is_free(&name, taken) {
                return Some(name);
            }
            n = n + 1;
        }
        let mut marks: Vec<bool> = Vec::new();
        let mut k: u32 = 0;
        while k < NAME_COUNT
            invariant
                k <= NAME_COUNT,
                marks@.len() == k,
                forall|j: int| 0 <= j < k ==> !marks@[j],
            decreases NAME_COUNT - k,
        {
            marks.push(false);
            k = k + 1;
        }
        let mut t: usize = 0;
        while t < taken.len()
            invariant
                t <= taken@.len(),
                marks@.len() == NAME_COUNT,
                forall|j: int|
                    0 <= j < t && is_identifier(#[trigger] taken@[j]@) ==> marks@[place_of(taken@[j]@)],
                forall|p: int|
                    0 <= p < NAME_COUNT && #[trigger] marks@[p] ==> names_view(taken@).contains(name_at(p)),
            decreases taken@.len() - t,
        {
            if let Some(p) = name_place(&taken[t]) {
                proof {
                    lemma_name_at_covers(taken@[t as int]@);
                    assert(names_view(taken@)[t as int] == taken@[t as int]@);
                }
                marks.set(p as usize, true);
            }
            t = t + 1;
        }
        let mut k: u32 = 0;
        while k < NAME_COUNT
            invariant
                k <= NAME_COUNT,
                marks@.len() == NAME_COUNT,
                forall|j: int|
                    0 <= j < taken@.len() && is_identifier(#[trigger] taken@[j]@) ==> marks@[place_of(taken@[j]@)],
                forall|p: int|
                    0 <= p < NAME_COUNT && #[trigger] marks@[p] ==> names_view(taken@).contains(name_at(p)),
                forall|j: int| 0 <= j < k ==> marks@[j],
            decreases NAME_COUNT - k,
        {
            if !marks[k as usize] {
                let name = candidate(k);
                proof {
                    lemma_name_at_is_identifier(k as int);
                    lemma_place_of_name_at(k as int);
                    if names_view(taken@).contains(name@) {
                        let j = choose|j: int|
                            0 <= j < names_view(taken@).len() && names_view(taken@)[j] == name@;
                        assert(taken@[j]@ == name@);
                    }
                }
                return Some(name);
            }
            k = k + 1;
        }
        proof {
            assert forall|id: Seq<char>| #[trigger] is_identifier(id) implies names_view(
                taken@,
            ).contains(id) by {
                lemma_name_at_covers(id);
                let p = place_of(id);
                assert(marks@[p]);
            }
        }
        None
    }

    /// Where this paste is to be written: refuses content that the policy
    /// does not accept, then picks an identifier not among `taken`, the names
    /// in the directory `base`, and returns the path `base/identifier`.
    pub fn save_to(&self, base: &str, taken: &Vec<String>) -> (r: Result<String, PasteError>)
        ensures
            (r == Err::<String, PasteError>(PasteError::NotPermitted)) == !content_permitted(self.data@),
            content_permitted(self.data@) && holds_no_identifier(taken@) ==> r is Ok,
            content_permitted(self.data@) && (exists|id: Seq<char>|
                #[trigger] is_identifier(id) && !names_view(taken@).contains(id)) ==> r is Ok,
            r matches Ok(p) ==> exists|id: Seq<char>|
                is_identifier(id) && !names_view(taken@).contains(id) && p@ == base@ + "/"@ + id,
    {
        if !Paste::permits(self.data.as_slice()) {
            return Err(PasteError::NotPermitted);
        }
        match Paste::random_file_name(taken) {
            Some(name) => {
                let mut path = String::from_str(base);
                path.append("/");
                path.append(name.as_str());
                Ok(path)
            },
            None => Err(PasteError::NoFreeName),
        }
    }
}

} // verus!
