use feed::profile::Profile;
use feed::random::RandomSource;
use feed::random::ACCEPT_DENOMINATOR;
use feed::random::ACCEPT_NUMERATOR;

fn numbered(count: usize) -> Vec<Profile> {
    (0..count).map(|i| Profile::new(format!("person-{}", i), None, None)).collect()
}

fn avatars(people: &[Profile]) -> Vec<String> {
    people.iter().map(|p| p.avatar().to_string()).collect()
}

#[test]
fn a_source_remembers_its_seed() {
    let mut seed = [0u8; 32];
    for (i, byte) in seed.iter_mut().enumerate() {
        *byte = (i * 3) as u8;
    }
    let mut rng = RandomSource::from_seed(seed);
    assert_eq!(rng.seed_bytes(), seed);
    rng.accept();
    let mut people = numbered(5);
    rng.shuffle(&mut people);
    assert_eq!(rng.seed_bytes(), seed);
}

#[test]
fn the_zero_seed_draws_the_known_stream() {
    let mut rng = RandomSource::from_seed([0u8; 32]);
    let drawn: Vec<bool> = (0..8).map(|_| rng.accept()).collect();
    assert_eq!(drawn, vec![false, true, true, false, false, true, true, false]);
}

#[test]
fn draws_repeat_under_one_seed() {
    let mut first = RandomSource::from_seed([9u8; 32]);
    let mut second = RandomSource::from_seed([9u8; 32]);
    for _ in 0..500 {
        assert_eq!(first.accept(), second.accept());
    }
}

#[test]
fn about_three_draws_in_ten_accept() {
    assert_eq!(ACCEPT_NUMERATOR, 3);
    assert_eq!(ACCEPT_DENOMINATOR, 10);
    let mut rng = RandomSource::from_seed([42u8; 32]);
    let mut accepted = 0;
    for _ in 0..20000 {
        if rng.accept() {
            accepted += 1;
        }
    }
    let share = accepted as f64 / 20000.0;
    assert!(share > 0.28 && share < 0.32);
}

#[test]
fn shuffle_keeps_everybody() {
    let mut rng = RandomSource::from_seed([5u8; 32]);
    let mut people = numbered(40);
    rng.shuffle(&mut people);
    assert_eq!(people.len(), 40);
    let mut names = avatars(&people);
    names.sort();
    let mut expected = avatars(&numbered(40));
    expected.sort();
    assert_eq!(names, expected);
}

#[test]
fn shuffle_changes_the_order() {
    let mut rng = RandomSource::from_seed([6u8; 32]);
    let mut people = numbered(40);
    rng.shuffle(&mut people);
    assert_ne!(avatars(&people), avatars(&numbered(40)));
}

#[test]
fn shuffle_repeats_under_one_seed() {
    let mut first = RandomSource::from_seed([7u8; 32]);
    let mut second = RandomSource::from_seed([7u8; 32]);
    let mut a = numbered(25);
    let mut b = numbered(25);
    first.shuffle(&mut a);
    second.shuffle(&mut b);
    assert_eq!(a, b);
}

#[test]
fn shuffle_of_nobody_and_of_one() {
    let mut rng = RandomSource::from_seed([8u8; 32]);
    let mut nobody: Vec<Profile> = Vec::new();
    rng.shuffle(&mut nobody);
    assert!(nobody.is_empty());
    let mut one = numbered(1);
    rng.shuffle(&mut one);
    assert_eq!(avatars(&one), vec!["person-0"]);
}
