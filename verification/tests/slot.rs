use rig_llama_cpp::slot::{fnv1a_64, get_common_prefix, SlotEntry};

#[test]
fn fnv1a_of_known_inputs() {
    assert_eq!(fnv1a_64(&Vec::new()), 0xcbf29ce484222325);
    assert_eq!(fnv1a_64(&b"a".to_vec()), 0xaf63dc4c8601ec8c);
    assert_eq!(fnv1a_64(&b"foobar".to_vec()), 0x85944171f73967e8);
}

#[test]
fn common_prefix_is_the_longest() {
    let left = vec![SlotEntry::Text(1), SlotEntry::Image(2), SlotEntry::Text(3)];
    let right = vec![SlotEntry::Text(1), SlotEntry::Image(2), SlotEntry::Text(4), SlotEntry::Text(5)];
    assert_eq!(get_common_prefix(&left, &right), 2);
    assert_eq!(get_common_prefix(&left, &left), 3);
    assert_eq!(get_common_prefix(&left, &Vec::new()), 0);
    assert_eq!(get_common_prefix(&vec![SlotEntry::Text(7)], &vec![SlotEntry::Image(7)]), 0);
}

#[test]
fn continued_prompt_is_cached() {
    let cache = vec![SlotEntry::Text(1), SlotEntry::Image(2)];
    let mut prompt = cache.clone();
    prompt.push(SlotEntry::Text(9));
    assert_eq!(get_common_prefix(&cache, &prompt), cache.len());
}
