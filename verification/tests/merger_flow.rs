//! Merger flow scenarios: subnets with reserves and TAO flows merge under
//! different ways of combining the flows. The flows are tracked here; the
//! merger itself runs through the library.

use std::collections::HashMap;
use subnet_merger::state::Pallet;
use subnet_merger::types::NetUid;

struct Sim {
    pallet: Pallet,
    flow: HashMap<NetUid, i64>,
    ema_flow: HashMap<NetUid, f64>,
    block: u64,
}

impl Sim {
    fn new() -> Sim {
        Sim { pallet: Pallet::new(), flow: HashMap::new(), ema_flow: HashMap::new(), block: 0 }
    }

    fn setup_subnet_with_flow(&mut self, netuid: NetUid, owner: u64, tao: u64, alpha: u64, flow: i64, ema: f64) {
        self.pallet.add_network(netuid, owner, 0);
        self.pallet.setup_reserves(netuid, tao, alpha);
        self.pallet.set_alpha_out(netuid, 0);
        self.flow.insert(netuid, flow);
        self.ema_flow.insert(netuid, ema);
    }

    fn run_to_block(&mut self, block: u64) {
        self.block = block;
    }

    fn owner(&self, netuid: NetUid) -> u64 {
        *self.pallet.subnet_owner.get(&netuid).unwrap()
    }

    fn merge(&mut self, alpha: NetUid, beta: NetUid) {
        let alpha_owner = self.owner(alpha);
        let beta_owner = self.owner(beta);
        assert_eq!(self.pallet.do_propose_merger(alpha_owner, alpha, beta, self.block), Ok(()));
        assert_eq!(self.pallet.do_approve_merger(beta_owner, alpha, beta), Ok(()));
        assert_eq!(self.pallet.do_execute_merger_extrinsic(alpha, self.block), Ok(()));
    }

    /// Option 1: the merged subnet's flow is dropped.
    fn merge_clear_flow(&mut self, alpha: NetUid, beta: NetUid) {
        self.merge(alpha, beta);
        self.flow.remove(&beta);
        self.ema_flow.remove(&beta);
    }

    /// Option 2: the flows are added, the EMAs averaged.
    fn merge_arithmetic_mean(&mut self, alpha: NetUid, beta: NetUid) {
        let (af, bf) = (self.flow[&alpha], self.flow[&beta]);
        let (ae, be) = (self.ema_flow[&alpha], self.ema_flow[&beta]);
        self.merge(alpha, beta);
        self.flow.insert(alpha, af.saturating_add(bf));
        self.ema_flow.insert(alpha, (ae + be) / 2.0);
        self.flow.remove(&beta);
        self.ema_flow.remove(&beta);
    }

    /// Option 3: geometric mean of the flows.
    fn merge_geometric_mean(&mut self, alpha: NetUid, beta: NetUid) {
        let (af, bf) = (self.flow[&alpha], self.flow[&beta]);
        let (ae, be) = (self.ema_flow[&alpha], self.ema_flow[&beta]);
        self.merge(alpha, beta);
        let combined = if af >= 0 && bf >= 0 {
            ((af as i128).saturating_mul(bf as i128) as f64).sqrt() as i64
        } else if af < 0 && bf < 0 {
            -((((-af) as i128).saturating_mul((-bf) as i128) as f64).sqrt() as i64)
        } else {
            af.saturating_add(bf) / 2
        };
        self.flow.insert(alpha, combined);
        self.ema_flow.insert(alpha, (ae * be).sqrt());
        self.flow.remove(&beta);
        self.ema_flow.remove(&beta);
    }

    /// Option 4: harmonic mean of the flows.
    fn merge_harmonic_mean(&mut self, alpha: NetUid, beta: NetUid) {
        let (af, bf) = (self.flow[&alpha], self.flow[&beta]);
        let (ae, be) = (self.ema_flow[&alpha], self.ema_flow[&beta]);
        self.merge(alpha, beta);
        let combined = if af != 0 && bf != 0 {
            let numerator = 2i128.saturating_mul(af as i128).saturating_mul(bf as i128);
            let denominator = (af as i128).saturating_add(bf as i128);
            if denominator != 0 { (numerator / denominator) as i64 } else { 0 }
        } else {
            0
        };
        self.flow.insert(alpha, combined);
        self.ema_flow.insert(alpha, 2.0 / (1.0 / ae + 1.0 / be));
        self.flow.remove(&beta);
        self.ema_flow.remove(&beta);
    }

    fn report(&self, label: &str) {
        println!("{}", label);
        let mut netuids: Vec<NetUid> = self.flow.keys().copied().collect();
        netuids.sort();
        for netuid in netuids {
            println!(
                "  Subnet {}: TAO {} alpha {} flow {} ema {:.2}",
                netuid,
                self.pallet.get_subnet_tao(netuid),
                self.pallet.get_subnet_alpha_in(netuid),
                self.flow[&netuid],
                self.ema_flow[&netuid]
            );
        }
    }
}

fn equal_subnets() -> Sim {
    let mut sim = Sim::new();
    sim.setup_subnet_with_flow(1, 1, 100_000, 10_000, 1000, 1000.0);
    sim.setup_subnet_with_flow(2, 2, 100_000, 10_000, 1000, 1000.0);
    sim.setup_subnet_with_flow(3, 3, 100_000, 10_000, 1000, 1000.0);
    sim
}

#[test]
fn test_merger_flow_scenario_1_equal_subnets() {
    println!("SCENARIO 1: EQUAL SUBNETS MERGER");

    let mut sim = equal_subnets();
    sim.report("BEFORE MERGER:");
    sim.run_to_block(1);
    sim.merge_clear_flow(1, 2);
    sim.report("--- OPTION 1: Clear Beta Flow ---");

    let mut sim = equal_subnets();
    sim.run_to_block(1);
    sim.merge_arithmetic_mean(1, 2);
    sim.report("--- OPTION 2: Arithmetic Mean (Sum Flows) ---");

    let mut sim = equal_subnets();
    sim.run_to_block(1);
    sim.merge_geometric_mean(1, 2);
    sim.report("--- OPTION 3: Geometric Mean ---");

    let mut sim = equal_subnets();
    sim.run_to_block(1);
    sim.merge_harmonic_mean(1, 2);
    sim.report("--- OPTION 4: Harmonic Mean ---");
}

fn gaming_subnets() -> Sim {
    let mut sim = Sim::new();
    sim.setup_subnet_with_flow(1, 1, 100_000, 10_000, 500, 500.0);
    sim.setup_subnet_with_flow(2, 1, 50_000, 5_000, 5000, 5000.0);
    sim.setup_subnet_with_flow(3, 3, 100_000, 10_000, 600, 600.0);
    sim.setup_subnet_with_flow(4, 4, 80_000, 8_000, 400, 400.0);
    sim
}

#[test]
fn test_merger_flow_scenario_2_gaming_attack() {
    println!("SCENARIO 2: GAMING ATTACK SIMULATION");

    let mut sim = gaming_subnets();
    sim.report("BEFORE ATTACK:");
    sim.run_to_block(1);
    sim.merge_clear_flow(1, 2);
    sim.report("--- OPTION 1: Clear Flow (Attack Fails) ---");

    let mut sim = gaming_subnets();
    sim.run_to_block(1);
    sim.merge_arithmetic_mean(1, 2);
    sim.report("--- OPTION 2: Arithmetic Mean (Attack Succeeds) ---");
}

fn asymmetric_subnets() -> Sim {
    let mut sim = Sim::new();
    sim.setup_subnet_with_flow(1, 1, 500_000, 50_000, 3000, 3000.0);
    sim.setup_subnet_with_flow(2, 2, 50_000, 5_000, 200, 200.0);
    sim.setup_subnet_with_flow(3, 3, 200_000, 20_000, 1500, 1500.0);
    sim
}

#[test]
fn test_merger_flow_scenario_3_asymmetric() {
    println!("SCENARIO 3: ASYMMETRIC MERGER (BIG + SMALL)");

    let mut sim = asymmetric_subnets();
    sim.report("BEFORE MERGER:");
    sim.run_to_block(1);
    sim.merge_clear_flow(1, 2);
    sim.report("--- OPTION 1: Clear Flow ---");

    let mut sim = asymmetric_subnets();
    sim.run_to_block(1);
    sim.merge_arithmetic_mean(1, 2);
    sim.report("--- OPTION 2: Arithmetic Mean ---");
}

fn competitive_subnets() -> Sim {
    let mut sim = Sim::new();
    sim.setup_subnet_with_flow(1, 1, 100_000, 10_000, 800, 800.0);
    sim.setup_subnet_with_flow(2, 2, 90_000, 9_000, 700, 700.0);
    sim.setup_subnet_with_flow(3, 3, 110_000, 11_000, 900, 900.0);
    sim.setup_subnet_with_flow(4, 4, 80_000, 8_000, 600, 600.0);
    sim.setup_subnet_with_flow(5, 5, 120_000, 12_000, 1000, 1000.0);
    sim
}

#[test]
fn test_merger_flow_scenario_4_competitive_impact() {
    println!("SCENARIO 4: COMPETITIVE IMPACT (5 SUBNETS)");

    let mut sim = competitive_subnets();
    sim.report("BEFORE MERGER:");
    sim.run_to_block(1);
    sim.merge_clear_flow(1, 2);
    sim.report("--- OPTION 1: Clear Flow ---");

    let mut sim = competitive_subnets();
    sim.run_to_block(1);
    sim.merge_arithmetic_mean(1, 2);
    sim.report("--- OPTION 2: Arithmetic Mean ---");
}

#[test]
fn test_merger_flow_all_scenarios_combined() {
    println!("TAO FLOW MERGER SIMULATION - COMPREHENSIVE ANALYSIS");

    test_merger_flow_scenario_1_equal_subnets();
    test_merger_flow_scenario_2_gaming_attack();
    test_merger_flow_scenario_3_asymmetric();
    test_merger_flow_scenario_4_competitive_impact();

    println!("SIMULATION COMPLETE");
}
