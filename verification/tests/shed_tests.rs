use sheep_shed::errors::Error;
use sheep_shed::shed::MemorySheepShed;
use sheep_shed::shed::SheepShed;
use sheep_shed::sheep::Sheep;
use sheep_shed::sheep::Tattoo;
use sheep_shed::sheep::Weight;

fn prep_base_sheep_shed<T: SheepShed>(mut sheep_shed: T) -> T {
    let sheep1 = Sheep {
        tattoo: Tattoo(1),
        weight: Weight::from_ug(100_000_000_000),
    };
    let sheep2 = Sheep {
        tattoo: Tattoo(2),
        weight: Weight::from_ug(120_000_000_000),
    };
    sheep_shed.add_sheep(sheep1).unwrap();
    sheep_shed.add_sheep(sheep2).unwrap();
    sheep_shed
}

#[test]
fn cannot_duplicate_sheep() {
    let mut sheep_shed = prep_base_sheep_shed(MemorySheepShed::default());
    let sheep3 = Sheep {
        tattoo: Tattoo(1),
        weight: Weight::from_ug(120_000_000_000),
    };
    // sheep3 has the same tattoo as sheep1, so it must fail
    assert!(sheep_shed
        .add_sheep(sheep3)
        .is_err_and(|e| matches!(e, Error::SheepDuplicationError(_))));
    // and the shed still holds exactly one sheep with that tattoo
    let sheep = sheep_shed.sheep_iter().unwrap();
    assert_eq!(sheep.iter().filter(|s| s.tattoo == Tattoo(1)).count(), 1);
}

#[test]
fn sheep_shed_sheep_count() {
    let mut sheep_shed = prep_base_sheep_shed(MemorySheepShed::default());
    let sheep3 = Sheep {
        tattoo: Tattoo(4),
        weight: Weight::from_ug(120_000_000_000),
    };
    assert_eq!(sheep_shed.sheep_count().unwrap(), 2);
    sheep_shed.add_sheep(sheep3).unwrap();
    assert_eq!(sheep_shed.sheep_count().unwrap(), 3);
}

#[test]
fn sheep_shed_iterator() {
    let sheep_shed = prep_base_sheep_shed(MemorySheepShed::default());
    let weight = sheep_shed
        .sheep_iter()
        .unwrap()
        .into_iter()
        .fold(Weight::from_ug(0), |acc, sheep| acc.plus(sheep.weight));
    assert_eq!(weight, Weight::from_ug(220_000_000_000));
}

#[test]
fn cannot_kill_inexistent_sheep() {
    let mut sheep_shed = prep_base_sheep_shed(MemorySheepShed::default());
    // inexistent tattoo
    assert!(sheep_shed
        .kill_sheep(&Tattoo(4))
        .is_err_and(|e| matches!(e, Error::SheepNotPresent(_))));
    // existing tattoo
    assert!(sheep_shed.kill_sheep(&Tattoo(2)).is_ok());
    // not any more
    assert!(sheep_shed
        .kill_sheep(&Tattoo(2))
        .is_err_and(|e| matches!(e, Error::SheepNotPresent(_))));
}

#[test]
fn count_consistency_after_inserts_and_deletes() {
    let mut shed = MemorySheepShed::default();
    // five distinct inserts
    for id in 1..=5u64 {
        shed.add_sheep(Sheep {
            tattoo: Tattoo(id),
            weight: Weight::from_ug(80_000_000_000 + id),
        })
        .unwrap();
    }
    assert_eq!(shed.sheep_count().unwrap(), 5);
    // three deletes of present, distinct tattoos
    for id in [2u64, 4, 5] {
        shed.kill_sheep(&Tattoo(id)).unwrap();
    }
    assert_eq!(shed.sheep_count().unwrap(), 2);
}

#[test]
fn killed_sheep_returns_its_body() {
    let mut shed = prep_base_sheep_shed(MemorySheepShed::default());
    let body = shed.kill_sheep(&Tattoo(2)).unwrap();
    assert_eq!(body.tattoo, Tattoo(2));
    assert_eq!(body.weight.as_ug(), 120_000_000_000);
}
