use feed::boundary::fs_create;
use feed::boundary::fs_tick;
use feed::engine::FeedSource;
use feed::profile::Config;
use feed::profile::ConfigError;
use feed::profile::Profile;
use feed::random::RandomSource;

fn person(avatar: &str) -> Profile {
    Profile::new(avatar.to_string(), Some(format!("id-{}", avatar)), Some(format!("name-{}", avatar)))
}

fn people(avatars: &[&str]) -> Vec<Profile> {
    avatars.iter().map(|a| person(a)).collect()
}

fn built(people: Vec<Profile>, batch_size: usize, rng: &mut RandomSource) -> FeedSource {
    match FeedSource::from_config(Config::new(people, batch_size), rng) {
        Ok(feed) => feed,
        Err(_) => panic!("a valid configuration was turned down"),
    }
}

fn source(byte: u8) -> RandomSource {
    RandomSource::from_seed([byte; 32])
}

fn rotation_of(feed: &FeedSource) -> Vec<String> {
    (0..feed.rotation_len()).map(|i| feed.rotation_at(i).avatar().to_string()).collect()
}

fn lookahead_of(feed: &FeedSource) -> Vec<String> {
    (0..feed.lookahead_len()).map(|i| feed.lookahead_at(i).avatar().to_string()).collect()
}

fn sorted(mut names: Vec<String>) -> Vec<String> {
    names.sort();
    names
}

#[test]
fn construction_fills_the_lookahead_exactly() {
    let mut rng = source(1);
    let feed = built(people(&["a", "b", "c"]), 1, &mut rng);
    assert_eq!(feed.lookahead_len(), 30);
    assert_eq!(feed.rotation_len(), 3);
    assert_eq!(feed.batch_size(), 1);
}

#[test]
fn construction_with_larger_batches() {
    let mut rng = source(2);
    let feed = built(people(&["a", "b", "c", "d", "e"]), 7, &mut rng);
    assert_eq!(feed.lookahead_len(), 210);
    assert_eq!(feed.rotation_len(), 5);
    assert_eq!(feed.batch_size(), 7);
}

#[test]
fn construction_keeps_every_profile_once() {
    let mut rng = source(3);
    let feed = built(people(&["d", "a", "c", "b", "a"]), 2, &mut rng);
    assert_eq!(sorted(rotation_of(&feed)), vec!["a", "a", "b", "c", "d"]);
}

#[test]
fn construction_keeps_the_whole_record() {
    let mut rng = source(4);
    let only = Profile::new("pic".to_string(), None, Some("Ann".to_string()));
    let feed = built(vec![only.clone()], 1, &mut rng);
    assert_eq!(**feed.rotation_at(0), only);
    assert_eq!(**feed.lookahead_at(29), only);
}

#[test]
fn lookahead_holds_only_configured_people() {
    let mut rng = source(5);
    let feed = built(people(&["a", "b", "c"]), 3, &mut rng);
    for avatar in lookahead_of(&feed) {
        assert!(avatar == "a" || avatar == "b" || avatar == "c");
    }
}

#[test]
fn examine_rotates_and_rejects() {
    let mut rng = source(6);
    let mut feed = built(people(&["a", "b", "c", "d"]), 1, &mut rng);
    let before = rotation_of(&feed);
    let outcome = feed.examine(false);
    assert!(outcome.is_none());
    let after = rotation_of(&feed);
    assert_eq!(after, vec![before[1].clone(), before[2].clone(), before[3].clone(), before[0].clone()]);
    assert_eq!(feed.lookahead_len(), 30);
}

#[test]
fn examine_rotates_and_accepts_the_front() {
    let mut rng = source(7);
    let mut feed = built(people(&["a", "b", "c", "d"]), 1, &mut rng);
    let before = rotation_of(&feed);
    let outcome = feed.examine(true);
    assert_eq!(outcome.unwrap().avatar(), before[0]);
    let after = rotation_of(&feed);
    assert_eq!(after, vec![before[1].clone(), before[2].clone(), before[3].clone(), before[0].clone()]);
}

#[test]
fn examine_visits_everybody_in_one_round() {
    let mut rng = source(8);
    let mut feed = built(people(&["a", "b", "c", "d", "e"]), 1, &mut rng);
    let before = rotation_of(&feed);
    let mut seen = Vec::new();
    for _ in 0..5 {
        seen.push(feed.examine(true).unwrap().avatar().to_string());
    }
    assert_eq!(seen, before);
    assert_eq!(rotation_of(&feed), before);
}

#[test]
fn pick_one_returns_the_profile_it_moved_to_the_back() {
    let mut rng = source(9);
    let mut feed = built(people(&["a", "b", "c", "d", "e"]), 1, &mut rng);
    for _ in 0..200 {
        let before = rotation_of(&feed);
        let pick = feed.pick_one(&mut rng);
        let after = rotation_of(&feed);
        assert_eq!(pick.avatar(), after[4]);
        let steps = before.iter().position(|a| a == pick.avatar()).unwrap() + 1;
        let mut expected = before.clone();
        expected.rotate_left(steps % 5);
        assert_eq!(after, expected);
        assert_eq!(feed.lookahead_len(), 30);
    }
}

#[test]
fn pick_one_follows_the_draws_of_the_source() {
    // The stream of the all-zero seed rejects, then accepts: the second
    // profile of the rotation is the first pick.
    let mut shuffle_rng = source(10);
    let mut feed = built(people(&["a", "b", "c"]), 1, &mut shuffle_rng);
    let before = rotation_of(&feed);
    let mut rng = source(0);
    let first = feed.pick_one(&mut rng);
    assert_eq!(first.avatar(), before[1]);
    // The next draw accepts at once: the third profile follows.
    let second = feed.pick_one(&mut rng);
    assert_eq!(second.avatar(), before[2]);
    // Then two rejections and an acceptance.
    let third = feed.pick_one(&mut rng);
    assert_eq!(third.avatar(), before[2]);
}

#[test]
fn a_profile_that_is_alone_is_always_picked() {
    let mut rng = source(11);
    let mut feed = built(people(&["solo"]), 2, &mut rng);
    assert_eq!(feed.lookahead_len(), 60);
    for avatar in lookahead_of(&feed) {
        assert_eq!(avatar, "solo");
    }
    for _ in 0..50 {
        assert_eq!(feed.pick_one(&mut rng).avatar(), "solo");
        assert_eq!(rotation_of(&feed), vec!["solo"]);
    }
}

#[test]
fn a_profile_that_is_alone_costs_one_draw() {
    let mut rng = source(0);
    let mut feed = built(people(&["solo"]), 1, &mut rng);
    // Thirty picks were made, one draw each: a second source that has made
    // thirty draws goes on as the first does.
    let mut twin = source(0);
    for _ in 0..30 {
        twin.accept();
    }
    feed.pick_one(&mut rng);
    twin.accept();
    for _ in 0..20 {
        assert_eq!(rng.accept(), twin.accept());
    }
}

#[test]
fn fill_ready_queue_adds_nothing_to_a_full_lookahead() {
    let mut rng = source(12);
    let mut feed = built(people(&["a", "b", "c"]), 2, &mut rng);
    let before = lookahead_of(&feed);
    let rotation = rotation_of(&feed);
    let added = feed.fill_ready_queue(&mut rng);
    assert!(added.is_empty());
    assert_eq!(lookahead_of(&feed), before);
    assert_eq!(rotation_of(&feed), rotation);
}

#[test]
fn fill_ready_queue_returns_what_it_appended() {
    let mut rng = source(13);
    let mut feed = built(people(&["a", "b", "c", "d"]), 3, &mut rng);
    let before = lookahead_of(&feed);
    let batch = feed.take_batch();
    assert_eq!(batch.len(), 3);
    assert_eq!(feed.lookahead_len(), 87);
    let added = feed.fill_ready_queue(&mut rng);
    assert_eq!(added.len(), 3);
    let after = lookahead_of(&feed);
    assert_eq!(after.len(), 90);
    assert_eq!(after[..87], before[3..]);
    let names: Vec<String> = added.iter().map(|p| p.avatar().to_string()).collect();
    assert_eq!(after[87..], names[..]);
}

#[test]
fn take_batch_takes_the_front_in_order() {
    let mut rng = source(14);
    let mut feed = built(people(&["a", "b", "c", "d"]), 4, &mut rng);
    let before = lookahead_of(&feed);
    let batch = feed.take_batch();
    let names: Vec<String> = batch.iter().map(|p| p.avatar().to_string()).collect();
    assert_eq!(names[..], before[..4]);
    assert_eq!(lookahead_of(&feed)[..], before[4..]);
}

#[test]
fn take_batch_tolerates_a_short_lookahead() {
    let mut rng = source(15);
    let mut feed = built(people(&["a", "b"]), 4, &mut rng);
    for _ in 0..29 {
        assert_eq!(feed.take_batch().len(), 4);
    }
    assert_eq!(feed.lookahead_len(), 4);
    feed.examine(true);
    assert_eq!(feed.take_batch().len(), 4);
    assert_eq!(feed.lookahead_len(), 0);
    assert_eq!(feed.take_batch().len(), 0);
    assert_eq!(feed.lookahead_len(), 0);
}

#[test]
fn tick_on_a_short_lookahead_returns_what_there_is() {
    let mut rng = source(16);
    let mut feed = built(people(&["a", "b", "c"]), 4, &mut rng);
    for _ in 0..30 {
        assert_eq!(feed.take_batch().len(), 4);
    }
    assert_eq!(feed.lookahead_len(), 0);
    let tick = fs_tick(&mut feed, &mut rng);
    assert_eq!(tick.current().len(), 0);
    assert_eq!(tick.preload_images().len(), 120);
    assert_eq!(feed.lookahead_len(), 120);
    assert_eq!(lookahead_of(&feed)[..], tick.preload_images()[..]);
}

#[test]
fn tick_on_a_partly_filled_lookahead() {
    let mut rng = source(17);
    let mut feed = built(people(&["x", "y"]), 1, &mut rng);
    for _ in 0..28 {
        feed.take_batch();
    }
    assert_eq!(feed.lookahead_len(), 2);
    let waiting = lookahead_of(&feed);
    let tick = fs_tick(&mut feed, &mut rng);
    assert_eq!(tick.current().len(), 1);
    assert_eq!(tick.current()[0].avatar(), waiting[0]);
    assert_eq!(tick.preload_images().len(), 29);
    assert_eq!(feed.lookahead_len(), 30);
    assert_eq!(lookahead_of(&feed)[0], waiting[1]);
    assert_eq!(lookahead_of(&feed)[1..], tick.preload_images()[..]);
}

#[test]
fn advancing_restores_the_lookahead() {
    let mut rng = source(18);
    let mut feed = match fs_create(Config::new(people(&["a", "b", "c"]), 1), &mut rng) {
        Ok(feed) => feed,
        Err(_) => panic!("a valid configuration was turned down"),
    };
    assert_eq!(feed.lookahead_len(), 30);
    let tick = fs_tick(&mut feed, &mut rng);
    assert_eq!(tick.current().len(), 1);
    assert_eq!(tick.preload_images().len(), 1);
    for _ in 0..1000 {
        let tick = fs_tick(&mut feed, &mut rng);
        assert_eq!(tick.current().len(), 1);
        assert_eq!(tick.preload_images().len(), 1);
        assert!(feed.lookahead_len() >= 30);
        assert_eq!(feed.rotation_len(), 3);
    }
}

#[test]
fn advancing_shows_the_lookahead_in_order() {
    let mut rng = source(19);
    let mut feed = built(people(&["a", "b", "c", "d", "e"]), 3, &mut rng);
    for _ in 0..100 {
        let before = lookahead_of(&feed);
        let tick = fs_tick(&mut feed, &mut rng);
        let shown: Vec<String> = tick.current().iter().map(|p| p.avatar().to_string()).collect();
        assert_eq!(shown[..], before[..3]);
        let after = lookahead_of(&feed);
        assert_eq!(after.len(), 90);
        assert_eq!(after[..87], before[3..]);
        assert_eq!(after[87..], tick.preload_images()[..]);
    }
}

#[test]
fn advancing_hands_out_whole_records() {
    let mut rng = source(20);
    let ann = Profile::new("ann.png".to_string(), Some("17".to_string()), None);
    let mut feed = built(vec![ann.clone()], 2, &mut rng);
    let tick = fs_tick(&mut feed, &mut rng);
    assert_eq!(tick.current().len(), 2);
    assert_eq!(*tick.current()[0], ann);
    assert_eq!(*tick.current()[1], ann);
    assert_eq!(tick.preload_images()[..], ["ann.png".to_string(), "ann.png".to_string()]);
}

#[test]
fn everybody_is_shown_sooner_or_later() {
    let names = ["a", "b", "c", "d", "e", "f", "g", "h", "i", "j", "k", "l"];
    let mut rng = source(21);
    let mut feed = built(people(&names), 2, &mut rng);
    let mut shown: Vec<String> = Vec::new();
    for _ in 0..500 {
        let tick = fs_tick(&mut feed, &mut rng);
        for pick in tick.current() {
            shown.push(pick.avatar().to_string());
        }
    }
    for name in names {
        assert!(shown.iter().any(|s| s == name));
    }
    // Picks skip about two of three candidates: nobody is shown much more
    // often than the others.
    for name in names {
        let count = shown.iter().filter(|s| *s == name).count();
        assert!(count > 40 && count < 130);
    }
}

#[test]
fn the_rotation_never_loses_or_gains_anybody() {
    let names = ["a", "b", "c", "d", "e", "f", "g"];
    let mut rng = source(22);
    let mut feed = built(people(&names), 3, &mut rng);
    let start = rotation_of(&feed);
    for _ in 0..300 {
        fs_tick(&mut feed, &mut rng);
        let now = rotation_of(&feed);
        assert_eq!(sorted(now.clone()), sorted(start.clone()));
        // The order changes by rotation only.
        let shift = start.iter().position(|a| *a == now[0]).unwrap();
        let mut expected = start.clone();
        expected.rotate_left(shift);
        assert_eq!(now, expected);
    }
}

#[test]
fn the_same_seed_gives_the_same_feed() {
    let names = ["a", "b", "c", "d", "e", "f"];
    let mut first_rng = source(23);
    let mut second_rng = source(23);
    let mut first = built(people(&names), 2, &mut first_rng);
    let mut second = built(people(&names), 2, &mut second_rng);
    assert_eq!(rotation_of(&first), rotation_of(&second));
    assert_eq!(lookahead_of(&first), lookahead_of(&second));
    for _ in 0..200 {
        let a = fs_tick(&mut first, &mut first_rng);
        let b = fs_tick(&mut second, &mut second_rng);
        assert_eq!(a.current()[..], b.current()[..]);
        assert_eq!(a.preload_images()[..], b.preload_images()[..]);
    }
    assert_eq!(rotation_of(&first), rotation_of(&second));
}

#[test]
fn another_seed_gives_another_feed() {
    let names = ["a", "b", "c", "d", "e", "f", "g", "h"];
    let mut first_rng = source(24);
    let mut second_rng = source(25);
    let first = built(people(&names), 4, &mut first_rng);
    let second = built(people(&names), 4, &mut second_rng);
    assert_ne!(lookahead_of(&first), lookahead_of(&second));
}

#[test]
fn two_feeds_share_one_source() {
    let mut rng = source(26);
    let mut first = built(people(&["a", "b", "c"]), 1, &mut rng);
    let mut second = built(people(&["x", "y"]), 2, &mut rng);
    for _ in 0..50 {
        assert_eq!(fs_tick(&mut first, &mut rng).current().len(), 1);
        assert_eq!(fs_tick(&mut second, &mut rng).current().len(), 2);
    }
    assert_eq!(first.lookahead_len(), 30);
    assert_eq!(second.lookahead_len(), 60);
    assert_eq!(sorted(rotation_of(&first)), vec!["a", "b", "c"]);
    assert_eq!(sorted(rotation_of(&second)), vec!["x", "y"]);
}

#[test]
fn construction_turns_down_an_empty_people_list() {
    let mut rng = source(30);
    let outcome = FeedSource::from_config(Config::new(Vec::new(), 1), &mut rng);
    assert!(matches!(outcome, Err(ConfigError::NoPeople)));
}

#[test]
fn construction_turns_down_a_batch_size_of_zero() {
    let mut rng = source(31);
    let outcome = FeedSource::from_config(Config::new(people(&["a", "b"]), 0), &mut rng);
    assert!(matches!(outcome, Err(ConfigError::ZeroBatchSize)));
}

#[test]
fn construction_turns_down_a_batch_size_that_overflows() {
    let mut rng = source(32);
    let outcome = FeedSource::from_config(Config::new(people(&["a"]), usize::MAX / 30 + 1), &mut rng);
    assert!(matches!(outcome, Err(ConfigError::BatchSizeTooLarge)));
}

#[test]
fn construction_that_is_turned_down_leaves_the_source_alone() {
    let mut rng = source(33);
    let mut twin = source(33);
    assert!(FeedSource::from_config(Config::new(Vec::new(), 2), &mut rng).is_err());
    assert!(FeedSource::from_config(Config::new(people(&["a", "b", "c"]), 0), &mut rng).is_err());
    assert!(FeedSource::from_config(Config::new(people(&["a"]), usize::MAX), &mut rng).is_err());
    let mut first = people(&["a", "b", "c", "d", "e", "f", "g", "h"]);
    let mut second = first.clone();
    rng.shuffle(&mut first);
    twin.shuffle(&mut second);
    assert_eq!(first, second);
    for _ in 0..20 {
        assert_eq!(rng.accept(), twin.accept());
    }
}

#[test]
fn a_refill_that_adds_nothing_leaves_the_source_alone() {
    let mut rng = source(34);
    let mut feed = built(people(&["a", "b", "c"]), 2, &mut rng);
    let mut twin = source(34);
    let _ = built(people(&["a", "b", "c"]), 2, &mut twin);
    assert!(feed.fill_ready_queue(&mut rng).is_empty());
    let mut first = people(&["a", "b", "c", "d", "e", "f", "g", "h"]);
    let mut second = first.clone();
    rng.shuffle(&mut first);
    twin.shuffle(&mut second);
    assert_eq!(first, second);
    for _ in 0..20 {
        assert_eq!(rng.accept(), twin.accept());
    }
}

#[test]
fn what_is_picked_is_shown_thirty_advances_later() {
    let mut rng = source(35);
    let mut feed = built(people(&["a", "b", "c", "d", "e", "f", "g"]), 3, &mut rng);
    let start = lookahead_of(&feed);
    let mut shown: Vec<Vec<String>> = Vec::new();
    let mut added: Vec<Vec<String>> = Vec::new();
    for _ in 0..100 {
        let tick = fs_tick(&mut feed, &mut rng);
        shown.push(tick.current().iter().map(|p| p.avatar().to_string()).collect());
        added.push(tick.preload_images().clone());
    }
    for k in 0..30 {
        assert_eq!(shown[k][..], start[3 * k..3 * k + 3]);
    }
    for k in 0..70 {
        assert_eq!(shown[k + 30], added[k]);
    }
}
