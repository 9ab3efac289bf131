//! Rule sets on disk: a header holding a magic number and a SHA-256 checksum of the
//! encoded rules, followed by the encoded rules.
use vstd::prelude::*;
use vstd::utf8::encode_utf8;
use crate::rule::{Rule, Rules};

verus! {

/// The length of a SHA-256 digest in bytes.
pub const SHA256_LEN: usize = 32;

/// The magic number that opens a rule set: the bytes of "RADE" read little-endian.
pub const RULESET_MAGIC: u32 = 0x45444152u32;

/// The length of an encoded header: the magic number and the checksum.
pub const HEADER_SIZE: usize = 36;

/// The SHA-256 digest of `data` (`sha2::Sha256::digest`).
pub uninterp spec fn sha256_digest(data: Seq<u8>) -> [u8; 32];

/// Calls `sha2::Sha256::digest`; the contract names the digest by the input bytes, the
/// hash function itself is not restated.
#[verifier::external_body]
fn sha256(data: &[u8]) -> (r: [u8; 32])
    ensures
        r == sha256_digest(data@),
{
    <sha2::Sha256 as sha2::Digest>::digest(data).into()
}

/// The character of a hex digit `n` (`0..16`), in lower or upper case.
pub open spec fn hex_digit_char(n: int, upper: bool) -> char {
    if n < 10 {
        ('0' as int + n) as char
    } else if upper {
        ('A' as int + n - 10) as char
    } else {
        ('a' as int + n - 10) as char
    }
}

/// Two hex digits per byte, high digit first.
pub open spec fn hex_text(b: Seq<u8>, upper: bool) -> Seq<char> {
    Seq::new(
        2 * b.len(),
        |k: int|
            hex_digit_char(
                if k % 2 == 0 {
                    b[k / 2] / 16
                } else {
                    b[k / 2] % 16
                } as int,
                upper,
            ),
    )
}

/// `hex::encode`: the bytes in lowercase hex.
#[verifier::external_body]
fn hex_encode(data: &[u8]) -> (r: String)
    ensures
        r@ == hex_text(data@, false),
{
    hex::encode(data)
}

/// `hex::encode_upper`: the bytes in uppercase hex.
#[verifier::external_body]
fn hex_encode_upper(data: &[u8]) -> (r: String)
    ensures
        r@ == hex_text(data@, true),
{
    hex::encode_upper(data)
}

/// The value of a hex digit byte, either case.
pub open spec fn hex_value(c: u8) -> Option<int> {
    if 0x30 <= c <= 0x39 {
        Some(c - 0x30)
    } else if 0x41 <= c <= 0x46 {
        Some(c - 0x41 + 10)
    } else if 0x61 <= c <= 0x66 {
        Some(c - 0x61 + 10)
    } else {
        None
    }
}

/// The bytes that hex text `h` encodes: `None` for an odd length or a byte that is not a
/// hex digit.
pub open spec fn hex_decoded(h: Seq<u8>) -> Option<Seq<u8>> {
    if h.len() % 2 != 0 {
        None
    } else if forall|i: int| 0 <= i < h.len() ==> #[trigger] hex_value(h[i]) is Some {
        Some(
            Seq::new(
                h.len() / 2,
                |i: int| (hex_value(h[2 * i])->0 * 16 + hex_value(h[2 * i + 1])->0) as u8,
            ),
        )
    } else {
        None
    }
}

#[verifier::external_type_specification]
#[verifier::external_body]
pub struct ExFromHexError(hex::FromHexError);

/// `hex::decode` on the bytes of `s`.
#[verifier::external_body]
fn hex_decode(s: &str) -> (r: Result<Vec<u8>, hex::FromHexError>)
    ensures
        match hex_decoded(encode_utf8(s@)) {
            Some(b) => r is Ok && r->Ok_0@ == b,
            None => r is Err,
        },
{
    hex::decode(s)
}

/// What `String::from_utf8_lossy` makes of bytes.
pub uninterp spec fn lossy_text(bytes: Seq<u8>) -> Seq<char>;

/// Calls `String::from_utf8_lossy`; the contract names the text by the bytes.
#[verifier::external_body]
fn utf8_lossy(bytes: &[u8]) -> (r: String)
    ensures
        r@ == lossy_text(bytes@),
{
    String::from_utf8_lossy(bytes).into_owned()
}

/// What can go wrong with hex checksums.
#[derive(Debug)]
pub enum ShaError {
    IncorrectStringLen { string_len: usize },
    ToHexError(hex::FromHexError),
}

/// What can go wrong reading or writing a rule set.
#[derive(Debug)]
#[allow(inconsistent_fields)]
pub enum RuleSetError {
    BincodeDeserializeError(String),
    BincodeSerializeError(String),
    IncorrectMagicError { current: String },
    IncorrectChecksumError { current: String, expected: String },
    IncorrectFileSizeError { size: u64 },
    IncorrectSignatureSizeError { size: u32 },
    IncorrectSignatureError { info: String },
    IoError(String),
    NoSuchPropertyError(String),
    OsStringError(String),
    SerdeYamlError(String),
    ShaError(ShaError),
}

/// A SHA-256 digest.
pub struct Sha256Buff(pub [u8; SHA256_LEN]);

impl Default for Sha256Buff {
    fn default() -> (r: Self)
        ensures
            r.0@ == Seq::new(32, |i: int| 0u8),
    {
        let r = Sha256Buff([0u8; 32]);
        proof {
            assert(r.0@ =~= Seq::new(32, |i: int| 0u8));
        }
        r
    }
}

/// The bytes of the strings of `v`, one after the other.
pub open spec fn concat_bytes(v: Seq<Vec<u8>>) -> Seq<u8>
    decreases v.len(),
{
    if v.len() == 0 {
        Seq::empty()
    } else {
        concat_bytes(v.drop_last()) + v.last()@
    }
}

impl Sha256Buff {
    pub fn as_slice(&self) -> (r: &[u8])
        ensures
            r@ == self.0@,
    {
        self.0.as_slice()
    }

    /// The digest of the bytes.
    pub fn from_vec(v: Vec<u8>) -> (r: Sha256Buff)
        ensures
            r.0 == sha256_digest(v@),
    {
        Sha256Buff(sha256(v.as_slice()))
    }

    /// The digest of the bytes.
    pub fn from_bytes(v: &[u8]) -> (r: Sha256Buff)
        ensures
            r.0 == sha256_digest(v@),
    {
        Sha256Buff(sha256(v))
    }

    /// The digest of the string's UTF-8 bytes.
    pub fn from_string(s: String) -> (r: Sha256Buff)
        ensures
            r.0 == sha256_digest(encode_utf8(s@)),
    {
        Sha256Buff(sha256(s.as_str().as_bytes()))
    }

    /// The digest written in hex; an error when the text is not hex or does not hold 32
    /// bytes.
    pub fn from_sha_string(s: &str) -> (r: Result<Sha256Buff, ShaError>)
        ensures
            match hex_decoded(encode_utf8(s@)) {
                Some(b) => if b.len() == 32 {
                    r is Ok && r->Ok_0.0@ == b
                } else {
                    r is Err && r->Err_0 == (ShaError::IncorrectStringLen {
                        string_len: b.len() as usize,
                    })
                },
                None => r is Err && r->Err_0 is ToHexError,
            },
    {
        match hex_decode(s) {
            Ok(v) => {
                if v.len() != SHA256_LEN {
                    return Err(ShaError::IncorrectStringLen { string_len: v.len() });
                }
                let mut a = [0u8; 32];
                let mut i: usize = 0;
                while i < 32
                    invariant
                        i <= 32,
                        v@.len() == 32,
                        forall|j: int| 0 <= j < i ==> a@[j] == v@[j],
                    decreases 32 - i,
                {
                    a[i] = v[i];
                    i = i + 1;
                }
                proof {
                    assert(a@ =~= v@);
                }
                Ok(Sha256Buff(a))
            },
            Err(e) => Err(ShaError::ToHexError(e)),
        }
    }

    /// The digest of all the byte strings, one after the other.
    pub fn from_vec_of_vec(vec: Vec<Vec<u8>>) -> (r: Sha256Buff)
        ensures
            r.0 == sha256_digest(concat_bytes(vec@)),
    {
        let mut all: Vec<u8> = Vec::new();
        let mut i: usize = 0;
        while i < vec.len()
            invariant
                i <= vec@.len(),
                all@ == concat_bytes(vec@.take(i as int)),
            decreases vec.len() - i,
        {
            let mut j: usize = 0;
            let ghost before = all@;
            while j < vec[i].len()
                invariant
                    i < vec@.len(),
                    j <= vec@[i as int]@.len(),
                    all@ == before + vec@[i as int]@.take(j as int),
                decreases vec@[i as int]@.len() - j,
            {
                all.push(vec[i][j]);
                j = j + 1;
                proof {
                    assert(all@ =~= before + vec@[i as int]@.take(j as int));
                }
            }
            proof {
                assert(vec@[i as int]@.take(vec@[i as int]@.len() as int) =~= vec@[i as int]@);
                assert(vec@.take(i + 1).drop_last() =~= vec@.take(i as int));
            }
            i = i + 1;
        }
        proof {
            assert(vec@.take(vec@.len() as int) =~= vec@);
        }
        Sha256Buff(sha256(all.as_slice()))
    }

    /// The digest in uppercase hex.
    pub fn to_string(&self) -> (r: String)
        ensures
            r@ == hex_text(self.0@, true),
    {
        hex_encode_upper(self.0.as_slice())
    }
}

/// The model of a header: its magic number and checksum bytes.
pub struct HeaderView {
    pub magic: u32,
    pub checksum: Seq<u8>,
}

/// The header of a rule set.
pub struct RuleSetHeader {
    magic: u32,
    checksum: Sha256Buff,
}

impl View for RuleSetHeader {
    type V = HeaderView;

    closed spec fn view(&self) -> HeaderView {
        HeaderView { magic: self.magic, checksum: self.checksum.0@ }
    }
}

/// The four bytes of `m`, least significant first.
pub open spec fn le_bytes(m: u32) -> Seq<u8> {
    seq![(m % 256) as u8, (m / 256 % 256) as u8, (m / 65536 % 256) as u8, (m / 16777216) as u8]
}

/// The number whose little-endian bytes open `b`.
pub open spec fn le_u32(b: Seq<u8>) -> u32 {
    (b[0] + b[1] * 256 + b[2] * 65536 + b[3] * 16777216) as u32
}

/// The header that the first bytes of `b` encode: the magic number, then the checksum.
pub open spec fn header_of(b: Seq<u8>) -> HeaderView {
    HeaderView { magic: le_u32(b), checksum: b.subrange(4, 36) }
}

/// The checksum a rule set keeps of its encoded rules: the digest of their digest.
pub open spec fn checksum_of(data: Seq<u8>) -> Seq<u8> {
    sha256_digest(sha256_digest(data)@)@
}

/// The bytes of a rule set: the magic number, the checksum of the encoded rules, and the
/// encoded rules.
pub open spec fn framed(data: Seq<u8>) -> Seq<u8> {
    le_bytes(RULESET_MAGIC) + checksum_of(data) + data
}

impl Default for RuleSetHeader {
    fn default() -> (r: Self)
        ensures
            r@.magic == 0,
            r@.checksum == Seq::new(32, |i: int| 0u8),
    {
        RuleSetHeader { magic: 0, checksum: Sha256Buff::default() }
    }
}

impl RuleSetHeader {
    pub fn new(magic: u32, checksum: Sha256Buff) -> (r: RuleSetHeader)
        ensures
            r@.magic == magic,
            r@.checksum == checksum.0@,
    {
        RuleSetHeader { magic, checksum }
    }

    pub fn magic(&self) -> (r: u32)
        ensures
            r == self@.magic,
    {
        self.magic
    }

    pub fn checksum(&self) -> (r: &Sha256Buff)
        ensures
            r.0@ == self@.checksum,
    {
        &self.checksum
    }

    /// `Ok` exactly when the magic number is `RULESET_MAGIC`; else the error shows the
    /// magic number's bytes as text.
    pub fn verify_magic(&self) -> (r: Result<(), RuleSetError>)
        ensures
            r is Ok <==> self@.magic == RULESET_MAGIC,
            r is Err ==> (r->Err_0 matches RuleSetError::IncorrectMagicError { current }
                && current@ == lossy_text(le_bytes(self@.magic))),
    {
        if self.magic != RULESET_MAGIC {
            let m = self.magic;
            let bytes: Vec<u8> = vec![
                (m % 256) as u8,
                (m / 256 % 256) as u8,
                (m / 65536 % 256) as u8,
                (m / 16777216) as u8,
            ];
            proof {
                assert(bytes@ =~= le_bytes(m));
            }
            return Err(RuleSetError::IncorrectMagicError { current: utf8_lossy(bytes.as_slice()) });
        }
        Ok(())
    }

    /// `Ok` exactly when `calculated_checksum` equals the header's checksum; else the error
    /// shows the header's checksum as text and the calculated one in hex.
    pub fn verify_sha256(&self, calculated_checksum: Sha256Buff) -> (r: Result<(), RuleSetError>)
        ensures
            r is Ok <==> calculated_checksum.0@ == self@.checksum,
            r is Err ==> (r->Err_0 matches RuleSetError::IncorrectChecksumError { current, expected }
                && current@ == lossy_text(self@.checksum) && expected@ == hex_text(
                calculated_checksum.0@,
                false,
            )),
    {
        let a = calculated_checksum.as_slice();
        let b = self.checksum.as_slice();
        let mut same = true;
        let mut i: usize = 0;
        while i < 32
            invariant
                i <= 32,
                a@.len() == 32,
                b@.len() == 32,
                same == (forall|j: int| 0 <= j < i ==> a@[j] == b@[j]),
            decreases 32 - i,
        {
            if a[i] != b[i] {
                same = false;
            }
            i = i + 1;
        }
        if !same {
            proof {
                let j = choose|j: int| 0 <= j < 32 && a@[j] != b@[j];
                assert(a@[j] != b@[j]);
            }
            return Err(
                RuleSetError::IncorrectChecksumError { current: utf8_lossy(b), expected: hex_encode(a) },
            );
        }
        proof {
            assert(a@ =~= b@);
        }
        Ok(())
    }

    /// The header's bytes: the magic number little-endian, then the checksum.
    pub fn to_bytes(&self) -> (r: Vec<u8>)
        ensures
            r@ == le_bytes(self@.magic) + self@.checksum,
    {
        let m = self.magic;
        let mut out: Vec<u8> = vec![
            (m % 256) as u8,
            (m / 256 % 256) as u8,
            (m / 65536 % 256) as u8,
            (m / 16777216) as u8,
        ];
        let mut i: usize = 0;
        while i < 32
            invariant
                i <= 32,
                self.checksum.0@.len() == 32,
                out@ == le_bytes(m) + self.checksum.0@.take(i as int),
            decreases 32 - i,
        {
            out.push(self.checksum.0[i]);
            i = i + 1;
            proof {
                assert(out@ =~= le_bytes(m) + self.checksum.0@.take(i as int));
            }
        }
        proof {
            assert(self.checksum.0@.take(32) =~= self.checksum.0@);
        }
        out
    }

    /// The header that the first 36 bytes encode.
    pub fn from_bytes(b: &[u8]) -> (r: RuleSetHeader)
        requires
            b@.len() >= HEADER_SIZE,
        ensures
            r@ == header_of(b@),
    {
        let magic: u32 = b[0] as u32 + b[1] as u32 * 256 + b[2] as u32 * 65536 + b[3] as u32
            * 16777216;
        let mut a = [0u8; 32];
        let mut i: usize = 0;
        while i < 32
            invariant
                i <= 32,
                b@.len() >= 36,
                forall|j: int| 0 <= j < i ==> a@[j] == b@[j + 4],
            decreases 32 - i,
        {
            a[i] = b[i + 4];
            i = i + 1;
        }
        proof {
            assert(a@ =~= b@.subrange(4, 36));
        }
        RuleSetHeader { magic, checksum: Sha256Buff(a) }
    }
}

/// A header and rules.
pub struct RuleSet {
    header: RuleSetHeader,
    rules: Rules,
}

impl RuleSet {
    pub fn new(header: RuleSetHeader, rules: Rules) -> (r: RuleSet)
        ensures
            r.header()@ == header@,
            r.rules_spec() == rules.0@,
    {
        RuleSet { header, rules }
    }

    pub closed spec fn header(&self) -> RuleSetHeader {
        self.header
    }

    pub closed spec fn rules_spec(&self) -> Seq<Rule> {
        self.rules.0@
    }

    /// Rules with a header of zeros.
    pub fn from_rules(rules: Rules) -> (r: RuleSet)
        ensures
            r.header()@.magic == 0,
            r.rules_spec() == rules.0@,
    {
        RuleSet::new(RuleSetHeader::default(), rules)
    }

    /// One rule with a header of zeros.
    pub fn from_rule(rule: Rule) -> (r: RuleSet)
        ensures
            r.header()@.magic == 0,
            r.rules_spec() == seq![rule],
    {
        let mut v: Vec<Rule> = Vec::new();
        v.push(rule);
        proof {
            assert(v@ =~= seq![rule]);
        }
        RuleSet::from_rules(Rules::new(v))
    }

    /// The checksum kept of encoded rules.
    fn calc_checksum(data: &[u8]) -> (r: Sha256Buff)
        ensures
            r.0@ == checksum_of(data@),
    {
        let first = sha256(data);
        let mut v: Vec<u8> = Vec::new();
        let mut i: usize = 0;
        while i < 32
            invariant
                i <= 32,
                v@ == first@.take(i as int),
            decreases 32 - i,
        {
            v.push(first[i]);
            i = i + 1;
            proof {
                assert(v@ =~= first@.take(i as int));
            }
        }
        proof {
            assert(first@.take(32) =~= first@);
        }
        Sha256Buff::from_vec(v)
    }

    /// The bytes of a rule set holding the encoded rules `rules_data`: the header with the
    /// magic number and the checksum, then the rules.
    pub fn serialize_to_bytes(rules_data: &[u8]) -> (r: Vec<u8>)
        ensures
            r@ == framed(rules_data@),
    {
        let header = RuleSetHeader { magic: RULESET_MAGIC, checksum: RuleSet::calc_checksum(rules_data) };
        let mut data = header.to_bytes();
        let ghost head = data@;
        let mut i: usize = 0;
        while i < rules_data.len()
            invariant
                i <= rules_data@.len(),
                data@ == head + rules_data@.take(i as int),
            decreases rules_data.len() - i,
        {
            data.push(rules_data[i]);
            i = i + 1;
            proof {
                assert(data@ =~= head + rules_data@.take(i as int));
            }
        }
        proof {
            assert(rules_data@.take(rules_data@.len() as int) =~= rules_data@);
            assert(head + rules_data@ =~= framed(rules_data@));
        }
        data
    }

    /// Takes the header off the front of `data` and checks it: an error when `data` is
    /// shorter than a header (then `data` stays as it was), when the magic number is wrong,
    /// or when the checksum does not match the rest of `data`, which is left in `data`.
    pub fn deserialize_from_bytes(data: &mut Vec<u8>) -> (r: Result<RuleSetHeader, RuleSetError>)
        ensures
            old(data)@.len() < HEADER_SIZE ==> (final(data)@ == old(data)@ && r is Err
                && r->Err_0 == (RuleSetError::IncorrectFileSizeError {
                size: old(data)@.len() as u64,
            })),
            old(data)@.len() >= HEADER_SIZE ==> final(data)@ == old(data)@.skip(36),
            old(data)@.len() >= HEADER_SIZE && header_of(old(data)@).magic != RULESET_MAGIC ==> (
            r is Err && r->Err_0 is IncorrectMagicError),
            old(data)@.len() >= HEADER_SIZE && header_of(old(data)@).magic == RULESET_MAGIC
                && header_of(old(data)@).checksum != checksum_of(old(data)@.skip(36)) ==> (r is Err
                && r->Err_0 is IncorrectChecksumError),
            r is Ok <==> (old(data)@.len() >= HEADER_SIZE && header_of(old(data)@).magic
                == RULESET_MAGIC && header_of(old(data)@).checksum == checksum_of(
                old(data)@.skip(36),
            )),
            r is Ok ==> r->Ok_0@ == header_of(old(data)@),
    {
        if data.len() < HEADER_SIZE {
            return Err(RuleSetError::IncorrectFileSizeError { size: data.len() as u64 });
        }
        let header = RuleSetHeader::from_bytes(data.as_slice());
        let ghost whole = data@;
        let mut rest: Vec<u8> = Vec::new();
        let mut i: usize = HEADER_SIZE;
        while i < data.len()
            invariant
                HEADER_SIZE <= i <= data@.len(),
                data@ == whole,
                rest@ == whole.subrange(36, i as int),
            decreases data.len() - i,
        {
            rest.push(data[i]);
            i = i + 1;
            proof {
                assert(rest@ =~= whole.subrange(36, i as int));
            }
        }
        proof {
            assert(rest@ =~= whole.skip(36));
        }
        *data = rest;
        match header.verify_magic() {
            Ok(()) => {},
            Err(e) => return Err(e),
        }
        let sum = RuleSet::calc_checksum(data.as_slice());
        match header.verify_sha256(sum) {
            Ok(()) => Ok(header),
            Err(e) => Err(e),
        }
    }

    pub fn retain_rules(self) -> (r: Rules)
        ensures
            r.0@ == self.rules_spec(),
    {
        self.rules
    }

    pub fn rules(&self) -> (r: &Rules)
        ensures
            r.0@ == self.rules_spec(),
    {
        &self.rules
    }

    pub fn header_ref(&self) -> (r: &RuleSetHeader)
        ensures
            r@ == self.header()@,
    {
        &self.header
    }
}

/// Reading back the bytes of a rule set gives the header written and the encoded rules:
/// the magic number is right, the checksum matches, and what follows the header is the
/// rules' bytes.
pub proof fn law_frame_roundtrip(data: Seq<u8>)
    ensures
        framed(data).len() >= HEADER_SIZE,
        header_of(framed(data)).magic == RULESET_MAGIC,
        header_of(framed(data)).checksum == checksum_of(data),
        framed(data).skip(36) == data,
        header_of(framed(data)).checksum == checksum_of(framed(data).skip(36)),
{
    let f = framed(data);
    let c = checksum_of(data);
    assert(c.len() == 32);
    assert(le_bytes(RULESET_MAGIC) =~= seq![0x52u8, 0x41u8, 0x44u8, 0x45u8]);
    assert(f.subrange(4, 36) =~= c);
    assert(f.skip(36) =~= data);
    assert(f[0] == 0x52u8 && f[1] == 0x41u8 && f[2] == 0x44u8 && f[3] == 0x45u8);
}

/// The checksum written in front of encoded rules is the SHA-256 digest of the SHA-256
/// digest of every byte of the rules.
pub proof fn law_checksum_covers_every_byte(data: Seq<u8>)
    ensures
        header_of(framed(data)).checksum == sha256_digest(sha256_digest(data)@)@,
{
    law_frame_roundtrip(data);
}

/// The bytes of a rule set whose rules were replaced by other bytes, with a different
/// double digest, no longer carry the checksum of what follows the header: reading them
/// back is refused.
pub proof fn law_tampered_rules_refused(data: Seq<u8>, other: Seq<u8>)
    requires
        sha256_digest(sha256_digest(data)@)@ != sha256_digest(sha256_digest(other)@)@,
    ensures
        ({
            let b = framed(data).take(36) + other;
            &&& b.len() >= HEADER_SIZE
            &&& header_of(b).magic == RULESET_MAGIC
            &&& b.skip(36) == other
            &&& header_of(b).checksum != checksum_of(b.skip(36))
        }),
{
    law_frame_roundtrip(data);
    let f = framed(data);
    let b = f.take(36) + other;
    assert(b.skip(36) =~= other);
    assert(b.subrange(0, 36) =~= f.subrange(0, 36));
    assert(b.subrange(4, 36) =~= f.subrange(4, 36));
    assert(b[0] == f[0] && b[1] == f[1] && b[2] == f[2] && b[3] == f[3]);
}

/// The UTF-8 bytes of ASCII characters are the characters' codes.
proof fn lemma_ascii_bytes(s: Seq<char>)
    requires
        forall|i: int| 0 <= i < s.len() ==> (#[trigger] s[i] as u32) <= 0x7F,
    ensures
        encode_utf8(s).len() == s.len(),
        forall|i: int| 0 <= i < s.len() ==> #[trigger] encode_utf8(s)[i] == (s[i] as u32) as u8,
    decreases s.len(),
{
    if s.len() > 0 {
        let t = s.drop_first();
        assert forall|i: int| 0 <= i < t.len() implies (#[trigger] t[i] as u32) <= 0x7F by {
            assert(t[i] == s[i + 1]);
        }
        lemma_ascii_bytes(t);
        let v = s[0] as u32;
        assert((v & 0x7Fu32) == v) by (bit_vector)
            requires
                v <= 0x7F,
        ;
        assert(vstd::utf8::encode_scalar(v) == seq![v as u8]);
        assert(encode_utf8(s) == seq![v as u8] + encode_utf8(t));
        assert forall|i: int| 0 <= i < s.len() implies #[trigger] encode_utf8(s)[i] == (s[i] as u32) as u8 by {
            if i > 0 {
                assert(encode_utf8(s)[i] == encode_utf8(t)[i - 1]);
                assert(t[i - 1] == s[i]);
            }
        }
    }
}

/// Hex text decodes back to the bytes it was made from, in either case; so a checksum's
/// `to_string` read by `from_sha_string` gives the same checksum.
pub proof fn law_hex_roundtrip(b: Seq<u8>, upper: bool)
    ensures
        hex_decoded(encode_utf8(hex_text(b, upper))) == Some(b),
{
    let t = hex_text(b, upper);
    assert forall|i: int| 0 <= i < t.len() implies (#[trigger] t[i] as u32) <= 0x7F by {
        let d = if i % 2 == 0 { b[i / 2] / 16 } else { b[i / 2] % 16 };
        assert(0 <= d < 16);
    }
    lemma_ascii_bytes(t);
    let h = encode_utf8(t);
    assert(h.len() == 2 * b.len());
    assert forall|i: int| 0 <= i < h.len() implies #[trigger] hex_value(h[i]) is Some && hex_value(
        h[i],
    )->0 == (if i % 2 == 0 { b[i / 2] / 16 } else { b[i / 2] % 16 }) by {
        let d = if i % 2 == 0 { b[i / 2] / 16 } else { b[i / 2] % 16 };
        assert(0 <= d < 16);
        assert(h[i] == (t[i] as u32) as u8);
    }
    let out = Seq::new(h.len() / 2, |i: int| (hex_value(h[2 * i])->0 * 16 + hex_value(h[2 * i + 1])->0) as u8);
    assert forall|i: int| 0 <= i < b.len() implies #[trigger] out[i] == b[i] by {
        assert(hex_value(h[2 * i])->0 == b[i] / 16);
        assert(hex_value(h[2 * i + 1])->0 == b[i] % 16);
    }
    assert(out =~= b);
}

} // verus!
