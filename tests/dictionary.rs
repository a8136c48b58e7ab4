use spacetimedb::rand::rngs::StdRng;
use spacetimedb::rand::SeedableRng;
use trigram_game::trigram::{
    get_available_trigrams, get_example_words, is_word_valid, TrigramMap,
};

fn code(k: usize) -> String {
    let a = (b'A' + ((k / 676) % 26) as u8) as char;
    let b = (b'A' + ((k / 26) % 26) as u8) as char;
    let c = (b'A' + (k % 26) as u8) as char;
    format!("{}{}{}", a, b, c)
}

fn entry(trigram: &str, extra: &[&str], count: usize) -> (String, Vec<String>) {
    let mut words: Vec<String> = (0..count).map(|k| format!("{}{}", trigram, code(k))).collect();
    for w in extra {
        words.push(w.to_string());
    }
    (trigram.to_string(), words)
}

fn sample_map() -> TrigramMap {
    TrigramMap::from_entries(vec![
        entry("NAT", &["INTERNATIONAL", "NATION", "NATIONALISTIC"], 201),
        entry("TER", &["INTERNATIONAL", "WATER"], 201),
        entry("SMALL", &[], 10),
        entry("FEW", &["FEWER"], 199),
    ])
}

#[test]
fn word_already_used_is_rejected() {
    let map = sample_map();
    let used = vec!["NATION".to_string()];
    assert_eq!(
        is_word_valid(&map, "NATION", "NAT", &used),
        Err("Word has already been used".to_string())
    );
}

#[test]
fn unknown_trigram_is_rejected() {
    let map = sample_map();
    assert_eq!(
        is_word_valid(&map, "NATION", "XYZ", &[]),
        Err("Trigram not found".to_string())
    );
}

#[test]
fn word_outside_dictionary_is_rejected() {
    let map = sample_map();
    assert_eq!(
        is_word_valid(&map, "NATIONS", "NAT", &[]),
        Err("Word not in dictionary".to_string())
    );
}

#[test]
fn listed_word_is_accepted_in_any_case() {
    let map = sample_map();
    assert_eq!(is_word_valid(&map, "NATION", "NAT", &[]), Ok(()));
    assert_eq!(is_word_valid(&map, "nation", "nat", &[]), Ok(()));
    assert_eq!(is_word_valid(&map, "Water", "ter", &[]), Ok(()));
}

#[test]
fn available_trigrams_need_more_than_two_hundred_words() {
    let map = sample_map();
    let all = get_available_trigrams(&map, &[]);
    assert!(all.contains(&"NAT".to_string()));
    assert!(all.contains(&"TER".to_string()));
    assert!(!all.contains(&"SMALL".to_string()));
    assert!(!all.contains(&"FEW".to_string()));
    assert_eq!(all.len(), 2);
}

#[test]
fn available_trigrams_skip_used_ones() {
    let map = sample_map();
    let rest = get_available_trigrams(&map, &["NAT".to_string()]);
    assert_eq!(rest, vec!["TER".to_string()]);
    let none = get_available_trigrams(&map, &["NAT".to_string(), "TER".to_string()]);
    assert!(none.is_empty());
}

#[test]
fn example_words_are_long_distinct_and_upper_case() {
    let map = TrigramMap::from_entries(vec![(
        "NAT".to_string(),
        vec![
            "international".to_string(),
            "nationalistic".to_string(),
            "denaturalization".to_string(),
            "supernatural".to_string(),
            "nation".to_string(),
            "natural".to_string(),
        ],
    )]);
    let mut rng = StdRng::seed_from_u64(7);
    let words = get_example_words(&map, "nat", &mut rng);
    assert_eq!(words.len(), 3);
    let long = ["INTERNATIONAL", "NATIONALISTIC", "DENATURALIZATION", "SUPERNATURAL"];
    for w in &words {
        assert!(long.contains(&w.as_str()));
    }
    assert_ne!(words[0], words[1]);
    assert_ne!(words[0], words[2]);
    assert_ne!(words[1], words[2]);
}

#[test]
fn example_words_may_be_fewer_than_three_or_none() {
    let map = TrigramMap::from_entries(vec![
        ("NAT".to_string(), vec!["NATION".to_string(), "INTERNATIONAL".to_string()]),
        ("ABC".to_string(), vec!["ABC".to_string()]),
    ]);
    let mut rng = StdRng::seed_from_u64(1);
    assert_eq!(get_example_words(&map, "NAT", &mut rng), vec!["INTERNATIONAL".to_string()]);
    assert!(get_example_words(&map, "ABC", &mut rng).is_empty());
    assert!(get_example_words(&map, "XYZ", &mut rng).is_empty());
}

#[test]
fn repeated_trigram_keeps_its_last_list() {
    let map = TrigramMap::from_entries(vec![
        ("NAT".to_string(), vec!["NATION".to_string()]),
        ("TER".to_string(), vec!["WATER".to_string()]),
        ("NAT".to_string(), vec!["NATURE".to_string()]),
    ]);
    assert_eq!(
        is_word_valid(&map, "NATION", "NAT", &[]),
        Err("Word not in dictionary".to_string())
    );
    assert_eq!(is_word_valid(&map, "NATURE", "NAT", &[]), Ok(()));
    assert_eq!(is_word_valid(&map, "WATER", "TER", &[]), Ok(()));
}

#[test]
fn dictionary_decodes_from_bincode() {
    let entries: Vec<(String, Vec<String>)> = vec![
        ("NAT".to_string(), vec!["NATION".to_string()]),
        ("TER".to_string(), vec!["WATER".to_string()]),
    ];
    let bytes = bincode::serialize(&entries).unwrap();
    let map = TrigramMap::from_bincode(&bytes).unwrap();
    assert_eq!(is_word_valid(&map, "NATION", "NAT", &[]), Ok(()));
    assert_eq!(is_word_valid(&map, "WATER", "TER", &[]), Ok(()));
    assert!(TrigramMap::from_bincode(&[1, 2, 3]).is_none());
}

#[test]
fn dictionary_decodes_a_serialized_hash_map() {
    let mut m: std::collections::HashMap<String, Vec<String>> = std::collections::HashMap::new();
    m.insert("ION".to_string(), vec!["NATION".to_string()]);
    let bytes = bincode::serialize(&m).unwrap();
    let map = TrigramMap::from_bincode(&bytes).unwrap();
    assert_eq!(is_word_valid(&map, "nation", "ion", &[]), Ok(()));
}
