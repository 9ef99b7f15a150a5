use pole_rust::model::{Criteria, Instance, Location, ServiceInfo, ServiceInstances};
use pole_rust::plugins::loadbalance::roundrobin::WeightedRoundRobinBalancer;

fn instance(id: &str, weight: u32) -> Instance {
    Instance {
        id: id.to_string(),
        namespace: "default".to_string(),
        service: "orders".to_string(),
        ip: format!("127.0.0.{}", weight),
        port: 8080 + weight,
        protocol: String::new(),
        weight,
        health: true,
        isolated: false,
        location: Location { region: String::new(), zone: String::new(), campus: String::new() },
        metadata: Vec::new(),
    }
}

fn service_instances(instances: Vec<Instance>) -> ServiceInstances {
    ServiceInstances::new(
        ServiceInfo {
            namespace: "default".to_string(),
            name: "orders".to_string(),
            revision: "rev-1".to_string(),
            metadata: Vec::new(),
        },
        instances,
    )
}

fn criteria() -> Criteria {
    Criteria { policy: "weightedRoundRobin".to_string(), hash_key: "".to_string() }
}

#[test]
fn weighted_round_robin_lifecycle_methods_do_not_panic() {
    let (supplier, _) = WeightedRoundRobinBalancer::builder();
    let mut balancer = supplier.create();

    balancer.init();
    balancer.destroy();
}

#[test]
fn weighted_round_robin_first_call_initializes_cache_and_honors_weight() {
    let (supplier, _) = WeightedRoundRobinBalancer::builder();
    let mut balancer = supplier.create();

    let selected = (0..3)
        .map(|_| {
            balancer
                .choose_instance(criteria(), service_instances(vec![instance("a", 1), instance("b", 2)]), 0)
                .unwrap()
                .id
        })
        .collect::<Vec<_>>();

    assert_eq!(selected.iter().filter(|id| id.as_str() == "a").count(), 1);
    assert_eq!(selected.iter().filter(|id| id.as_str() == "b").count(), 2);
}

#[test]
fn weighted_round_robin_builder_names_the_balancer() {
    let (_, name) = WeightedRoundRobinBalancer::builder();
    assert_eq!(name, "weightedRoundRobin");
}

#[test]
fn weighted_round_robin_refuses_service_without_instances() {
    let (supplier, _) = WeightedRoundRobinBalancer::builder();
    let mut balancer = supplier.create();
    let err = balancer.choose_instance(criteria(), service_instances(Vec::new()), 0).unwrap_err();
    assert_eq!(err.code, pole_rust::model::ErrorCode::InstanceInfoError);
}

#[test]
fn weighted_round_robin_refuses_zero_total_weight() {
    let (supplier, _) = WeightedRoundRobinBalancer::builder();
    let mut balancer = supplier.create();
    let err = balancer.choose_instance(criteria(), service_instances(vec![instance("z", 0)]), 0).unwrap_err();
    assert_eq!(err.code, pole_rust::model::ErrorCode::InstanceInfoError);
}

#[test]
fn weighted_round_robin_cycles_equal_weights() {
    let (supplier, _) = WeightedRoundRobinBalancer::builder();
    let mut balancer = supplier.create();
    let picks = (0..4)
        .map(|_| {
            balancer
                .choose_instance(criteria(), service_instances(vec![instance("a", 1), instance("b", 1)]), 0)
                .unwrap()
                .id
        })
        .collect::<Vec<_>>();
    assert_eq!(picks.iter().filter(|id| id.as_str() == "a").count(), 2);
    assert_eq!(picks.iter().filter(|id| id.as_str() == "b").count(), 2);
}

#[test]
fn weighted_round_robin_picks_each_instance_by_weight_over_a_full_cycle() {
    let (supplier, _) = WeightedRoundRobinBalancer::builder();
    let mut balancer = supplier.create();
    let mut picks: Vec<String> = Vec::new();
    for t in 0..6u64 {
        let ins = balancer
            .choose_instance(
                criteria(),
                service_instances(vec![instance("a", 1), instance("b", 2), instance("c", 3), instance("d", 0)]),
                t * 30,
            )
            .unwrap();
        picks.push(ins.id);
    }
    assert_eq!(picks.iter().filter(|id| id.as_str() == "a").count(), 1);
    assert_eq!(picks.iter().filter(|id| id.as_str() == "b").count(), 2);
    assert_eq!(picks.iter().filter(|id| id.as_str() == "c").count(), 3);
    assert_eq!(picks.iter().filter(|id| id.as_str() == "d").count(), 0);
}
