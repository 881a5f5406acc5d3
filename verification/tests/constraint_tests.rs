//! Checks on the capability traits: ids, propositions, mappings and the
//! natural-number interface.

use db_core::constraint::{Filter, Mapper, MaybeFilter, MaybeIndexer, MaybeMapper, Nat, TxCkpt};
use db_core::core_workload::CoreWL;
use db_core::tx::Tx;
use db_core::unif::{U64Gen, U64Map, U64Prp, U64Tup};

#[test]
fn walk_step_has_exact_values() {
    // one step of the pseudo-random walk, checked against hand-computed
    // values of the rotate-xor-shift formula
    let mut g1 = U64Gen::new(1, (1, 1, 1, 1), 10);
    assert_eq!(g1.num(), 2203318231040);
    let mut g2 = U64Gen::new(0x0123456789abcdef, (1, 1, 1, 1), 10);
    assert_eq!(g2.num(), 404503305873592593);
}

#[test]
fn nat_zero_and_succ() {
    let z: u64 = Nat::zero();
    assert_eq!(z, 0);
    assert_eq!(z.succ(), 1);
    assert_eq!(41u64.succ(), 42);
}

#[test]
fn tuple_id_is_its_key() {
    assert_eq!(U64Tup(7, 9).id(), 7);
}

#[test]
fn mapping_roundtrip() {
    let m = U64Map(Some((3, Some(U64Tup(3, 5)))));
    let pairs = m.into_mapping();
    assert_eq!(pairs, vec![(3, Some(U64Tup(3, 5)))]);
    let m2 = U64Map::from_mapping(pairs);
    assert_eq!(m2.0, Some((3, Some(U64Tup(3, 5)))));
    // the empty batch reads back as no pair at all
    let none = U64Map::from_mapping(Vec::new());
    assert_eq!(none.0, None);
    assert_eq!(none.into_mapping(), vec![]);
    // every mapper may also hand its pairs out through the loose interface
    let mut m3 = U64Map(Some((1, None)));
    assert_eq!(m3.tryc_mapping(), Some(vec![(1, None)]));
}

#[test]
fn proposition_indexes_and_filters() {
    let p = U64Prp(11);
    assert_eq!(p.tryc_indexer(), Some(vec![11]));
    assert_eq!(U64Prp::from_indexer(vec![4, 5]), U64Prp(4));
    assert!(p.into_filter(&U64Tup(11, 0)));
    assert!(!p.into_filter(&U64Tup(12, 0)));
    // every filter is also usable through the loose interface
    assert_eq!(p.tryc_filter(&U64Tup(11, 3)), Some(true));
}

#[test]
fn checkpoint_restores_the_walk() {
    let mut gen = U64Gen::new(42, (1, 1, 1, 1), 100);
    // the workload interface and the direct one agree
    let mut t = CoreWL::get(&mut gen);
    let c = t.make();
    let before = t;
    t = t.op();
    assert!(t != before);
    t.goto(c);
    assert_eq!(t.seed, before.seed);
}
