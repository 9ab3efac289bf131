use rade::parser::ConditionParser;
use rade::rule::{Rule, Rules};
use rade::rule_set::{RuleSet, RuleSetError, RuleSetHeader, Sha256Buff, ShaError, HEADER_SIZE, RULESET_MAGIC};
use uuid::Uuid;

const EMPTY_SHA: &str = "E3B0C44298FC1C149AFBF4C8996FB92427AE41E4649B934CA495991B7852B855";
const EMPTY_SHA_TWICE: &str = "5df6e0e2761359d30a8275058e299fcc0381534545f55cf43e41983f5d4c9456";

#[test]
fn digests_of_known_inputs() {
    assert_eq!(Sha256Buff::from_bytes(b"").to_string(), EMPTY_SHA);
    assert_eq!(Sha256Buff::from_vec(vec![]).to_string(), EMPTY_SHA);
    assert_eq!(Sha256Buff::from_string(String::new()).to_string(), EMPTY_SHA);
    assert_eq!(
        Sha256Buff::from_vec_of_vec(vec![b"ab".to_vec(), b"c".to_vec()]).as_slice(),
        Sha256Buff::from_bytes(b"abc").as_slice()
    );
    assert_eq!(
        Sha256Buff::from_bytes(b"abc").to_string(),
        "BA7816BF8F01CFEA414140DE5DAE2223B00361A396177A9CB410FF61F20015AD"
    );
}

#[test]
fn sha_strings_read_back() {
    let b = Sha256Buff::from_sha_string(EMPTY_SHA).unwrap();
    assert_eq!(b.to_string(), EMPTY_SHA);
    let lower = Sha256Buff::from_sha_string(&EMPTY_SHA.to_lowercase()).unwrap();
    assert_eq!(lower.as_slice(), b.as_slice());
    match Sha256Buff::from_sha_string("abcd") {
        Err(ShaError::IncorrectStringLen { string_len }) => assert_eq!(string_len, 2),
        _ => panic!("expected a length error"),
    }
    assert!(matches!(Sha256Buff::from_sha_string("abc"), Err(ShaError::ToHexError(_))));
    assert!(matches!(Sha256Buff::from_sha_string("zz"), Err(ShaError::ToHexError(_))));
}

#[test]
fn framing_round_trip() {
    let data = vec![1u8, 2, 3, 4];
    let framed = RuleSet::serialize_to_bytes(&data);
    assert_eq!(framed.len(), HEADER_SIZE + data.len());
    assert_eq!(&framed[0..4], b"RADE");
    let mut buf = framed.clone();
    let header = RuleSet::deserialize_from_bytes(&mut buf).unwrap();
    assert_eq!(buf, data);
    assert_eq!(header.magic(), RULESET_MAGIC);
    assert_eq!(header.to_bytes(), framed[0..HEADER_SIZE].to_vec());
}

#[test]
fn framing_of_nothing_keeps_the_double_digest() {
    let framed = RuleSet::serialize_to_bytes(&[]);
    let mut buf = framed.clone();
    let header = RuleSet::deserialize_from_bytes(&mut buf).unwrap();
    assert!(buf.is_empty());
    let hex: String = header.checksum().as_slice().iter().map(|b| format!("{:02x}", b)).collect();
    assert_eq!(hex, EMPTY_SHA_TWICE);
}

#[test]
fn short_input_is_a_size_error() {
    let mut short = vec![0u8; 10];
    match RuleSet::deserialize_from_bytes(&mut short) {
        Err(RuleSetError::IncorrectFileSizeError { size }) => assert_eq!(size, 10),
        _ => panic!("expected a size error"),
    }
    assert_eq!(short.len(), 10);
}

#[test]
fn wrong_magic_is_reported_as_text() {
    let mut framed = RuleSet::serialize_to_bytes(&[7u8]);
    framed[0] = b'X';
    match RuleSet::deserialize_from_bytes(&mut framed) {
        Err(RuleSetError::IncorrectMagicError { current }) => assert_eq!(current, "XADE"),
        _ => panic!("expected a magic error"),
    }
    assert_eq!(framed, vec![7u8]);
}

#[test]
fn changed_rules_fail_the_checksum() {
    let mut framed = RuleSet::serialize_to_bytes(&[7u8, 8]);
    let last = framed.len() - 1;
    framed[last] = 9;
    match RuleSet::deserialize_from_bytes(&mut framed) {
        Err(RuleSetError::IncorrectChecksumError { expected, .. }) => {
            let again = RuleSet::serialize_to_bytes(&[7u8, 9]);
            let hex: String = again[4..HEADER_SIZE].iter().map(|b| format!("{:02x}", b)).collect();
            assert_eq!(expected, hex);
        },
        _ => panic!("expected a checksum error"),
    }
}

#[test]
fn header_checks() {
    let zero = RuleSetHeader::default();
    assert_eq!(zero.magic(), 0);
    match zero.verify_magic() {
        Err(RuleSetError::IncorrectMagicError { current }) => assert_eq!(current, "\0\0\0\0"),
        _ => panic!("expected a magic error"),
    }
    let good = RuleSetHeader::new(RULESET_MAGIC, Sha256Buff::from_bytes(b"x"));
    assert!(good.verify_magic().is_ok());
    assert!(good.verify_sha256(Sha256Buff::from_bytes(b"x")).is_ok());
    assert!(good.verify_sha256(Sha256Buff::from_bytes(b"y")).is_err());
    let back = RuleSetHeader::from_bytes(&good.to_bytes());
    assert_eq!(back.magic(), RULESET_MAGIC);
    assert_eq!(back.checksum().as_slice(), good.checksum().as_slice());
}

#[test]
fn rule_sets_hold_rules() {
    let rule = Rule::new(
        Uuid::from_u128(5),
        "n",
        "d",
        "t",
        "ti",
        "mi",
        "e",
        ConditionParser::parse_condition("x == 1").unwrap(),
    );
    let set = RuleSet::from_rule(rule.clone());
    assert_eq!(set.rules().iter().len(), 1);
    assert_eq!(set.header_ref().magic(), 0);
    let rules: Rules = set.retain_rules();
    assert_eq!(rules.iter()[0].id().as_u128(), 5);
    let mut more = Rules::default();
    more.add_rule(rule);
    let set = RuleSet::new(RuleSetHeader::default(), more);
    assert_eq!(set.rules().iter().len(), 1);
}
