use std::collections::HashMap;
use std::collections::HashSet;

use typed_id::code::rand_id_unsafe;
use typed_id::codec::decode;
use typed_id::codec::encode;
use typed_id::codec::le_bytes_of;
use typed_id::codec::InvalidEncoding;
use typed_id::id::rand_id;
use typed_id::id::simple_name;
use typed_id::id::Id;
use typed_id::sets::pop_set;
use typed_id::sets::EmptyCollection;
use typed_id::util::time;
use typed_id::util::FileTree;
use typed_id::util::ImageRGBA8;

#[derive(Debug, Hash)]
struct Player;
#[derive(Debug, Hash)]
struct Unit;

const CODE_CHARS: [char; 62] = [
    'A', 'Z', 'E', 'R', 'T', 'Y', 'U', 'I', 'O', 'P', 'Q', 'S', 'D', 'F', 'G', 'H', 'J', 'K', 'L',
    'M', 'W', 'X', 'C', 'V', 'B', 'N', 'a', 'z', 'e', 'r', 't', 'y', 'u', 'i', 'o', 'p', 'q', 's',
    'd', 'f', 'g', 'h', 'j', 'k', 'l', 'm', 'w', 'x', 'c', 'v', 'b', 'n', '0', '1', '2', '3', '4',
    '5', '6', '7', '8', '9',
];

#[test]
fn encode_exact_values() {
    assert_eq!(encode(&vec![0, 0, 0, 0, 0, 0, 0, 0]), "0");
    assert_eq!(encode(&vec![0, 0, 0, 0, 0, 0, 0, 61]), "z");
    assert_eq!(encode(&vec![0, 0, 0, 0, 0, 0, 0, 62]), "10");
    // 62 * 62 - 1 == 3843 == 15 * 256 + 3
    assert_eq!(encode(&vec![0, 0, 0, 0, 0, 0, 15, 3]), "zz");
    // the conventional digit order: 10 -> 'A', 36 -> 'a'
    assert_eq!(encode(&vec![0, 0, 0, 0, 0, 0, 0, 10]), "A");
    assert_eq!(encode(&vec![0, 0, 0, 0, 0, 0, 0, 36]), "a");
}

#[test]
fn decode_exact_values() {
    assert_eq!(decode("0"), Ok(vec![0, 0, 0, 0, 0, 0, 0, 0]));
    assert_eq!(decode("z"), Ok(vec![0, 0, 0, 0, 0, 0, 0, 61]));
    assert_eq!(decode("10"), Ok(vec![0, 0, 0, 0, 0, 0, 0, 62]));
    assert_eq!(decode("zz"), Ok(vec![0, 0, 0, 0, 0, 0, 15, 3]));
    // leading zero digits are accepted and change nothing
    assert_eq!(decode("000z"), Ok(vec![0, 0, 0, 0, 0, 0, 0, 61]));
    // an empty string holds no digit and reads as zero
    assert_eq!(decode(""), Ok(vec![0, 0, 0, 0, 0, 0, 0, 0]));
}

#[test]
fn decode_rejects_out_of_alphabet() {
    assert_eq!(decode("@@@@@"), Err(InvalidEncoding));
    assert_eq!(decode("abc-"), Err(InvalidEncoding));
    assert_eq!(decode("12+3"), Err(InvalidEncoding));
    assert_eq!(decode("caf\u{e9}"), Err(InvalidEncoding));
}

#[test]
fn decode_rejects_overflow() {
    // 62^11 > 2^64, so eleven 'z' digits exceed the fixed eight-byte width
    assert_eq!(decode("zzzzzzzzzzz"), Err(InvalidEncoding));
    // the largest value that fits: 2^64 - 1
    let max = decode("LygHa16AHYF").expect("u64::MAX must fit");
    assert_eq!(max, vec![0xff; 8]);
    // one more is out of range
    assert_eq!(decode("LygHa16AHYG"), Err(InvalidEncoding));
}

#[test]
fn codec_round_trip() {
    for v in [
        0u64,
        1,
        61,
        62,
        255,
        256,
        0xDEAD_BEEF,
        u64::MAX / 3,
        u64::MAX - 1,
        u64::MAX,
    ] {
        let bytes = le_bytes_of(v);
        assert_eq!(bytes, v.to_le_bytes().to_vec());
        let text = encode(&bytes);
        let back = decode(&text).expect("round trip must decode");
        assert_eq!(back, bytes, "round trip failed for {v}");
    }
}

#[test]
fn id_new_keeps_value() {
    let id: Id<Player> = Id::new(0xC0FFEE);
    assert_eq!(id.value, 0xC0FFEE);
}

#[test]
fn equality_ignores_tag() {
    // the same raw value under two different tags: raw values compare equal
    let a: Id<Player> = Id::new(7);
    let b: Id<Unit> = Id::new(7);
    assert_eq!(a.value, b.value);
    // within one tag, equality is raw-value equality
    assert_eq!(Id::<Player>::new(7), Id::<Player>::new(7));
    assert_ne!(Id::<Player>::new(7), Id::<Player>::new(8));
}

#[test]
fn id_works_as_map_key() {
    let mut scores: HashMap<Id<Player>, u32> = HashMap::new();
    let a: Id<Player> = Id::new(1);
    let b: Id<Player> = Id::new(2);
    scores.insert(a, 10);
    scores.insert(b, 20);
    assert_eq!(scores[&a], 10);
    assert_eq!(scores[&Id::new(2)], 20);
    assert_eq!(scores.len(), 2);
}

#[test]
fn id_is_copied_by_value() {
    let a: Id<Player> = Id::new(5);
    let b = a;
    let c = a.clone();
    assert_eq!(a, b);
    assert_eq!(a, c);
}

#[test]
fn random_ids_rarely_collide() {
    // a statistical sanity check, not a uniqueness guarantee
    let mut seen: HashSet<u64> = HashSet::new();
    for _ in 0..10_000 {
        let id: Id<Player> = rand_id();
        seen.insert(id.value);
    }
    assert_eq!(seen.len(), 10_000);
}

#[test]
fn simple_name_strips_namespaces() {
    assert_eq!(simple_name("game::units::Player"), "Player");
    assert_eq!(simple_name("Player"), "Player");
    assert_eq!(simple_name("a::b"), "b");
    assert_eq!(simple_name(""), "");
    assert_eq!(simple_name("x"), "x");
    assert_eq!(simple_name("trailing::"), "");
}

#[test]
fn display_shape_and_stability() {
    let id: Id<Player> = Id::new(0);
    assert_eq!(id.display_with_name("game::units::Player"), "Player#0");
    // the little-endian bytes of 61 read big-endian are 61 * 256^7
    let id: Id<Player> = Id::new(61);
    assert_eq!(id.display_with_name("Player"), "Player#5EhUpRs1Tqy");
    // stable across repeated calls: a pure function of value and name
    let id: Id<Player> = rand_id();
    let first = id.display_with_name("game::units::Player");
    let second = id.display_with_name("game::units::Player");
    assert_eq!(first, second);
    assert!(first.starts_with("Player#"));
}

#[test]
fn display_via_qualified_name() {
    // the little-endian bytes of 62 read big-endian are 62 * 256^7
    let id: Id<Player> = Id::new(62);
    assert_eq!(id.display_with_name("game::units::Player"), "Player#5K1WLnfhB20");
}

#[test]
fn display_suffix_round_trips() {
    let id: Id<Player> = Id::new(0x0123_4567_89AB_CDEF);
    let shown = id.display_with_name("Player");
    let suffix = shown.strip_prefix("Player#").expect("shape is Kind#code");
    let bytes = decode(suffix).expect("the rendered code must decode");
    assert_eq!(bytes, 0x0123_4567_89AB_CDEF_u64.to_le_bytes().to_vec());
}

#[test]
fn code_is_five_chars_from_alphabet() {
    for _ in 0..50 {
        let code = rand_id_unsafe();
        assert_eq!(code.chars().count(), 5);
        for c in code.chars() {
            assert!(CODE_CHARS.contains(&c), "unexpected character {c:?}");
        }
    }
}

#[test]
fn pop_set_singleton_and_empty() {
    let mut set: HashSet<u64> = HashSet::new();
    set.insert(42);
    assert_eq!(pop_set(&mut set), Ok(42));
    assert!(set.is_empty());
    assert_eq!(pop_set(&mut set), Err(EmptyCollection));
}

#[test]
fn pop_set_removes_what_it_returns() {
    let mut set: HashSet<u32> = [1, 2, 3].into_iter().collect();
    let got = pop_set(&mut set).expect("the set is not empty");
    assert!([1, 2, 3].contains(&got));
    assert_eq!(set.len(), 2);
    assert!(!set.contains(&got));
}

#[test]
fn pop_set_of_ids() {
    let mut set: HashSet<Id<Player>> = HashSet::new();
    set.insert(Id::new(9));
    assert_eq!(pop_set(&mut set), Ok(Id::new(9)));
    assert_eq!(pop_set(&mut set), Err(EmptyCollection));
}

#[test]
fn time_runs_the_closure() {
    let mut hits = 0u32;
    let elapsed = time(|| {
        hits += 1;
    });
    assert_eq!(hits, 1);
    let _ = elapsed.as_nanos();
}

#[test]
fn collaborator_shapes_hold_plain_values() {
    let leaf = FileTree::Leaf { path: String::from("a.txt") };
    let tree = FileTree::Node { path: String::from("dir"), children: vec![leaf] };
    match tree {
        FileTree::Node { path, children } => {
            assert_eq!(path, "dir");
            assert_eq!(children.len(), 1);
        }
        _ => panic!("expected a node"),
    }
    let img = ImageRGBA8 { w: 2, h: 1, data: vec![0; 8] };
    assert_eq!(img.data.len(), (img.w * img.h * 4) as usize);
}
