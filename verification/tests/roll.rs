use dice_engine::eval::evaluate;
use dice_engine::parser::parse;
use dice_engine::request::Mode;
use dice_engine::rng::{EntropyRandomSource, FixedRandomSource, RandomSource};

fn toks(words: &[&str]) -> Vec<String> {
    words.iter().map(|w| w.to_string()).collect()
}

#[test]
fn sum_group_totals_its_dice() {
    let req = parse(&toks(&["3d6", "+2"])).unwrap();
    let mut rng = FixedRandomSource::new(vec![1, 4, 6]);
    let out = evaluate(&req, &mut rng);
    assert_eq!(out.groups.len(), 1);
    assert_eq!(out.groups[0].results, vec![1, 4, 6]);
    assert_eq!(out.total, 1 + 4 + 6 + 2);
}

#[test]
fn advantage_takes_the_maximum() {
    let req = parse(&toks(&["+d20"])).unwrap();
    let mut rng = FixedRandomSource::new(vec![5, 17]);
    let out = evaluate(&req, &mut rng);
    assert_eq!(out.groups[0].mode, Mode::Advantage);
    assert_eq!(out.groups[0].results, vec![5, 17]);
    assert_eq!(out.total, 17);
}

#[test]
fn disadvantage_takes_the_minimum() {
    let req = parse(&toks(&["-d20"])).unwrap();
    let mut rng = FixedRandomSource::new(vec![5, 17]);
    let out = evaluate(&req, &mut rng);
    assert_eq!(out.groups[0].mode, Mode::Disadvantage);
    assert_eq!(out.groups[0].results, vec![5, 17]);
    assert_eq!(out.total, 5);
}

#[test]
fn total_is_modifier_plus_contributions() {
    // 4d8 rolls 2+3+4+5 = 14, 2d6 rolls 1+6 = 7, modifier 8.
    let req = parse(&toks(&["4d8", "+3", "2d6", "+5"])).unwrap();
    let mut rng = FixedRandomSource::new(vec![2, 3, 4, 5, 1, 6]);
    let out = evaluate(&req, &mut rng);
    assert_eq!(out.total, 14 + 7 + 8);
}

#[test]
fn mixed_modes_compose() {
    // Sum 3+3, advantage max(3,3) = 3, disadvantage min(3,3) = 3, -1.
    let req = parse(&toks(&["2d6", "+d6", "-d6", "-1"])).unwrap();
    let mut rng = FixedRandomSource::new(vec![3]);
    let out = evaluate(&req, &mut rng);
    assert_eq!(out.total, 6 + 3 + 3 - 1);
}

#[test]
fn every_group_gets_count_results_in_range() {
    let req = parse(&toks(&["50d100", "1d2", "+d3", "-d4"])).unwrap();
    let mut rng = EntropyRandomSource::from_entropy();
    let out = evaluate(&req, &mut rng);
    assert_eq!(out.groups.len(), 4);
    for (g, q) in out.groups.iter().zip(req.groups.iter()) {
        assert_eq!(g.mode, q.mode);
        assert_eq!(g.count, q.count);
        assert_eq!(g.faces, q.faces);
        assert_eq!(g.results.len(), g.count as usize);
        for &r in g.results.iter() {
            assert!(1 <= r && r <= g.faces);
        }
    }
}

#[test]
fn advantage_rolls_exactly_two_dice() {
    let req = parse(&toks(&["+d20", "-d20"])).unwrap();
    let mut rng = EntropyRandomSource::from_entropy();
    let out = evaluate(&req, &mut rng);
    for g in out.groups.iter() {
        assert_eq!(g.count, 2);
        assert_eq!(g.results.len(), 2);
    }
    let adv = &out.groups[0];
    let dis = &out.groups[1];
    let max = adv.results[0].max(adv.results[1]);
    let min = dis.results[0].min(dis.results[1]);
    assert_eq!(out.total, max as i128 + min as i128);
}

#[test]
fn fixed_source_clamps_into_range() {
    let mut rng = FixedRandomSource::new(vec![0, 200]);
    let lo = rng.sample(1, 6);
    let hi = rng.sample(1, 6);
    assert_eq!(lo, 1);
    assert_eq!(hi, 6);
}

#[test]
fn entropy_source_stays_in_range() {
    let mut rng = EntropyRandomSource::from_entropy();
    for _ in 0..200 {
        let v = rng.sample(3, 9);
        assert!(3 <= v && v <= 9);
    }
}

#[test]
fn entropy_source_is_not_constant() {
    // A d100 drawn 100 times virtually never yields a single value; this
    // would fail if the sampler ignored its range or its generator.
    let mut rng = EntropyRandomSource::from_entropy();
    let first = rng.sample(1, 100);
    let mut varied = false;
    for _ in 0..99 {
        if rng.sample(1, 100) != first {
            varied = true;
        }
    }
    assert!(varied);
}
