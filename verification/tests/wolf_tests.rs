use sheep_shed::shed::MemorySheepShed;
use sheep_shed::shed::SheepShed;
use sheep_shed::sheep::Sheep;
use sheep_shed::sheep::Tattoo;
use sheep_shed::sheep::Weight;
use sheep_shed::wolf::is_eligible;
use sheep_shed::wolf::run_orchestration_with_bound;
use sheep_shed::wolf::select_sheep;
use sheep_shed::wolf::OrchestrationOutcome;

fn sheep(id: u64, weight_ug: u64) -> Sheep {
    Sheep {
        tattoo: Tattoo(id),
        weight: Weight::from_ug(weight_ug),
    }
}

#[test]
fn prime_weight_above_divisors_is_eligible() {
    let primes = vec![2, 3, 5, 7];
    assert!(is_eligible(97, &primes));
    assert!(is_eligible(101, &primes));
}

#[test]
fn even_weight_is_ineligible() {
    let primes = vec![2, 3, 5, 7];
    assert!(!is_eligible(100, &primes));
    assert!(!is_eligible(4, &primes));
}

#[test]
fn weight_one_is_eligible() {
    let primes = vec![2, 3, 5, 7];
    assert!(is_eligible(1, &primes));
    // with no divisors computed at all, everything passes
    assert!(is_eligible(100, &Vec::new()));
}

#[test]
fn weight_zero_is_struck_by_any_divisor() {
    // every number divides zero evenly, so zero passes only an empty list
    let primes = vec![2, 3, 5, 7];
    assert!(!is_eligible(0, &primes));
    assert!(is_eligible(0, &Vec::new()));
}

#[test]
fn tie_break_later_sheep_wins() {
    let primes = vec![2, 3, 5, 7];
    let flock = vec![sheep(1, 97), sheep(2, 97)];
    let picked = select_sheep(&flock, &primes).unwrap();
    assert_eq!(picked.tattoo, Tattoo(2));
}

#[test]
fn heavier_sheep_wins_regardless_of_order() {
    // 199 and 211 are both prime, so both eligible against [2,3,5,7]
    let primes = vec![2, 3, 5, 7];
    let flock = vec![sheep(1, 199), sheep(2, 211)];
    assert_eq!(select_sheep(&flock, &primes).unwrap().tattoo, Tattoo(2));
    let flock = vec![sheep(2, 211), sheep(1, 199)];
    assert_eq!(select_sheep(&flock, &primes).unwrap().tattoo, Tattoo(2));
}

#[test]
fn selection_skips_ineligible_sheep() {
    let primes = vec![2, 3, 5, 7];
    // the heaviest sheep is even, so the lighter prime-weighted one is picked
    let flock = vec![sheep(1, 97), sheep(2, 100)];
    assert_eq!(select_sheep(&flock, &primes).unwrap().tattoo, Tattoo(1));
    // nothing eligible yields none
    let flock = vec![sheep(1, 100), sheep(2, 102)];
    assert!(select_sheep(&flock, &primes).is_none());
}

#[test]
fn orchestration_end_to_end() {
    let mut shed = MemorySheepShed::default();
    shed.add_sheep(sheep(1, 97)).unwrap();
    shed.add_sheep(sheep(2, 100)).unwrap();
    shed.add_sheep(sheep(3, 101)).unwrap();
    // with an upper bound of 101 the eligibility list is [2, 3, 5, 7];
    // 97 and 101 pass, 100 falls to 2 and 5; the heaviest eligible wins
    let outcome = run_orchestration_with_bound(&mut shed, 101);
    match outcome {
        OrchestrationOutcome::Removed(s) => {
            assert_eq!(s.tattoo, Tattoo(3));
            assert_eq!(s.weight.as_ug(), 101);
        }
        _ => panic!("expected a removal"),
    }
    assert_eq!(shed.sheep_count().unwrap(), 2);
}

#[test]
fn orchestration_reports_none_eligible() {
    let mut shed = MemorySheepShed::default();
    shed.add_sheep(sheep(1, 100)).unwrap();
    shed.add_sheep(sheep(2, 102)).unwrap();
    let outcome = run_orchestration_with_bound(&mut shed, 101);
    assert!(matches!(outcome, OrchestrationOutcome::NoneEligible));
    assert_eq!(shed.sheep_count().unwrap(), 2);
}

#[test]
fn orchestration_on_empty_shed_is_benign() {
    let mut shed = MemorySheepShed::default();
    let outcome = run_orchestration_with_bound(&mut shed, 160_000_000_000);
    assert!(matches!(outcome, OrchestrationOutcome::NoneEligible));
}
