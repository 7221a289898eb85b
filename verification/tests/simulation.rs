//! The parts of the library run together against a simulated resolver, on a clock that
//! the test advances.

use std::collections::{BTreeSet, VecDeque};
use std::time::Duration;

use blastdns::address::{Endpoint, IpAddress};
use blastdns::client::{Attempt, Next, Outcomes, ResolverInput};
use blastdns::config::BlastDNSConfig;
use blastdns::controller::{AdaptiveController, TICK_MS};
use blastdns::pool::ResolverPool;
use blastdns::rate::{NanoQps, ONE_QPS};
use blastdns::worker::{take_up, Action, Answer, Dispatch, Exchange, QuerySpec, Received};
use blastdns::{BlastDNSClient, RateLimiter};

const MS: u64 = 1_000_000;

/// How much backlog the simulated resolver tolerates before dropping. Models a server
/// with a small queue rather than one that drops the instant it is busy.
const BURST_ALLOWANCE_NS: u64 = 50 * MS;

/// A resolver that answers after a while, and drops what is beyond its capacity.
struct SimResolver {
    latency_ns: u64,
    /// Each answered query consumes this much of the budget.
    interval_ns: Option<u64>,
    drop_one_in: Option<u64>,
    budget_ns: u64,
    received: u64,
    dropped: u64,
}

impl SimResolver {
    fn start(latency_ns: u64, capacity_qps: Option<NanoQps>, drop_one_in: Option<u64>) -> Self {
        SimResolver {
            latency_ns,
            interval_ns: capacity_qps.map(blastdns::rate::spacing),
            drop_one_in,
            budget_ns: 0,
            received: 0,
            dropped: 0,
        }
    }

    fn should_drop(&mut self, now_ns: u64) -> bool {
        if self.drop_one_in.is_some_and(|n| n > 0 && self.received % n == 0) {
            return true;
        }
        let Some(interval_ns) = self.interval_ns else {
            return false;
        };
        if self.budget_ns > now_ns + BURST_ALLOWANCE_NS {
            return true;
        }
        self.budget_ns = self.budget_ns.max(now_ns) + interval_ns;
        false
    }

    /// Take a query, and say when it is answered, if it is.
    fn query(&mut self, now_ns: u64) -> Option<u64> {
        self.received += 1;
        if self.should_drop(now_ns) {
            self.dropped += 1;
            return None;
        }
        Some(now_ns + self.latency_ns)
    }

    fn loss_ratio(&self) -> f64 {
        self.dropped as f64 / self.received.max(1) as f64
    }
}

/// What a worker waits for.
enum Wait {
    /// The next step of its query.
    Step,
    /// The resolver, which was asked at this time, and whether it answers.
    Response { started_ns: u64, answered: bool },
}

/// A client of one resolver, with its workers, which take lookups off a queue.
struct Simulation {
    sim: SimResolver,
    client: BlastDNSClient,
    pool: ResolverPool,
    limiter: RateLimiter,
    controller: Option<AdaptiveController>,
    outcomes: Outcomes,
    events: BTreeSet<(u64, usize)>,
    workers: Vec<Option<(Dispatch, Wait)>>,
    parked: VecDeque<usize>,
    remaining: usize,
    resolved: usize,
}

fn host() -> QuerySpec {
    QuerySpec { host: "h.example.com.".to_string(), record_type: 1 }
}

impl Simulation {
    fn new(sim: SimResolver, config: BlastDNSConfig, lookups: usize) -> Self {
        let resolver = Endpoint { ip: IpAddress::V4(0x7f00_0001), port: 5300, scope_id: 0 };
        let text = "127.0.0.1:5300".to_string();
        let input = ResolverInput { text, direct: Ok(resolver) };
        let client = BlastDNSClient::with_config(vec![input], config, None).expect("client init");
        let ceiling = client.rate_ceiling();
        let workers = client.worker_count();
        let mut simulation = Simulation {
            sim,
            pool: ResolverPool::new(client.resolvers(), &config),
            limiter: RateLimiter::new(ceiling),
            controller: config.adaptive.then(|| AdaptiveController::new(1, ceiling)),
            outcomes: Outcomes::default(),
            events: BTreeSet::new(),
            workers: (0..workers).map(|_| None).collect(),
            parked: VecDeque::new(),
            remaining: lookups,
            client,
            resolved: 0,
        };
        for worker in 0..workers {
            simulation.take_lookup(worker, 0);
        }
        simulation
    }

    fn take_lookup(&mut self, worker: usize, now_ns: u64) {
        self.workers[worker] = None;
        if self.remaining > 0 {
            self.remaining -= 1;
            let (_name, dispatch) = take_up(host()).expect("usable hostname");
            self.workers[worker] = Some((dispatch, Wait::Step));
            self.events.insert((now_ns, worker));
        }
    }

    fn wake(&mut self, worker: usize, now_ns: u64) {
        let Some((mut dispatch, wait)) = self.workers[worker].take() else {
            return;
        };
        match wait {
            Wait::Step => loop {
                match dispatch.step(&mut self.pool, &mut self.limiter, now_ns) {
                    Action::Proceed => {}
                    Action::Sleep(pause) => {
                        self.events.insert((now_ns + pause.as_nanos() as u64, worker));
                        self.workers[worker] = Some((dispatch, Wait::Step));
                        return;
                    }
                    Action::AwaitPermit(_) | Action::AwaitPlace => {
                        self.parked.push_back(worker);
                        self.workers[worker] = Some((dispatch, Wait::Step));
                        return;
                    }
                    Action::Query(k) => {
                        let timeout = self.pool.resolver(k).request_timeout().as_nanos() as u64;
                        let answer_ns = self.sim.query(now_ns);
                        self.events.insert((answer_ns.unwrap_or(now_ns + timeout), worker));
                        let wait =
                            Wait::Response { started_ns: now_ns, answered: answer_ns.is_some() };
                        self.workers[worker] = Some((dispatch, wait));
                        return;
                    }
                    Action::Yield | Action::Refuse => panic!("there is always a resolver"),
                }
            },
            Wait::Response { started_ns, answered } => {
                let exchange = if answered {
                    Exchange::Answered(Answer { message: (), truncated: false, answers: 8 })
                } else {
                    Exchange::Elapsed
                };
                let rtt = Duration::from_nanos(now_ns - started_ns);
                let received = dispatch.received(&mut self.pool, exchange, rtt, now_ns);
                if let Some(parked) = self.parked.pop_front() {
                    self.events.insert((now_ns, parked));
                }
                let Received::Finished(result) = received else {
                    panic!("nothing is truncated");
                };
                // Lookups are attempted once.
                let next = self.client.resolve(host().host, 1).attempted(Attempt::Delivered(result));
                let Next::Finish(result) = next else {
                    panic!("there are no retries");
                };
                self.outcomes.record(result.is_ok());
                self.resolved += result.is_ok() as usize;
                self.take_lookup(worker, now_ns);
            }
        }
    }

    /// Run until `end_ns`, or until nothing is left to do.
    fn run(&mut self, end_ns: u64, mut watch: impl FnMut(&SimResolver)) {
        let mut tick_ns = TICK_MS * MS;
        while let Some((now_ns, worker)) = self.events.pop_first() {
            while tick_ns <= now_ns.min(end_ns) {
                if let Some(controller) = &mut self.controller {
                    controller.tick(
                        &mut self.pool,
                        &mut self.limiter,
                        &self.outcomes,
                        Duration::from_millis(TICK_MS),
                        tick_ns,
                    );
                }
                tick_ns += TICK_MS * MS;
            }
            if now_ns > end_ns {
                return;
            }
            self.wake(worker, now_ns);
            watch(&self.sim);
        }
    }
}

/// Client config with retries and purgatory off, so tests observe exactly the queries
/// they send.
fn client_config() -> BlastDNSConfig {
    BlastDNSConfig {
        threads_per_resolver: 1,
        max_concurrency: 16,
        max_inflight_per_resolver: 4,
        request_timeout: Duration::from_millis(300),
        max_retries: 0,
        cache_capacity: 0,
        purgatory_threshold: 0,
        ..Default::default()
    }
}

/// End-to-end: run queries at a resolver that drops above a known capacity and confirm
/// the controller finds that edge and settles below it, with loss falling as a result.
#[test]
fn converges_below_a_real_resolver_capacity() {
    const CAPACITY: f64 = 100.0;

    let sim = SimResolver::start(2 * MS, Some(100 * ONE_QPS), None);
    let config = BlastDNSConfig {
        threads_per_resolver: 64,
        max_concurrency: 64,
        max_inflight_per_resolver: 32,
        request_timeout: Duration::from_millis(200),
        max_retries: 0,
        cache_capacity: 0,
        purgatory_threshold: 0,
        adaptive: true,
        ..Default::default()
    };

    // Push hard for long enough that the controller sees several ticks.
    let mut simulation = Simulation::new(sim, config, 4000);
    let mut early_loss = None;
    simulation.run(4000 * MS, |sim| {
        if early_loss.is_none() && sim.received > 400 {
            early_loss = Some(sim.loss_ratio());
        }
    });

    let rate = simulation.pool.stats()[0]
        .rate_qps
        .map(|rate| rate as f64 / ONE_QPS as f64)
        .expect("controller should have set a pacing rate");
    assert!(
        rate < CAPACITY,
        "controller should hold below the {CAPACITY} QPS edge, got {rate}"
    );
    assert!(
        rate > CAPACITY * 0.3,
        "controller should not collapse the rate, got {rate}"
    );

    // Adaptation should have reduced loss relative to the unthrottled start.
    if let Some(early) = early_loss {
        let overall = simulation.sim.loss_ratio();
        assert!(
            overall <= early + 0.02,
            "loss should not grow after adapting: {early} early vs {overall} overall"
        );
    }
}

#[test]
fn a_simulated_resolver_answers() {
    let sim = SimResolver::start(MS, None, None);
    let mut simulation = Simulation::new(sim, client_config(), 1);
    simulation.run(1000 * MS, |_| {});
    assert_eq!(simulation.resolved, 1);
    assert_eq!(simulation.sim.received, 1);
    assert_eq!(simulation.outcomes, Outcomes { completed: 1, failed: 0 });
}

#[test]
fn deterministic_loss_drops_the_expected_share() {
    let sim = SimResolver::start(MS, None, Some(2));
    let mut simulation = Simulation::new(sim, client_config(), 10);
    simulation.run(10_000 * MS, |_| {});
    assert_eq!(simulation.sim.received, 10);
    assert_eq!(simulation.sim.dropped, 5, "every second query should be dropped");
    assert_eq!(simulation.resolved, 5);
    assert_eq!(simulation.outcomes, Outcomes { completed: 10, failed: 5 });
}

/// A query holds its resolver's in-flight permit until it returns, so an unanswered one
/// has to give that permit back on a deadline.
#[test]
fn an_unanswered_query_gives_its_permit_back() {
    for persistent_socket in [false, true] {
        let sim = SimResolver::start(MS, None, Some(1));
        let config = BlastDNSConfig { persistent_socket, ..client_config() };
        let timeout_ns = config.request_timeout.as_nanos() as u64;
        let mut simulation = Simulation::new(sim, config, 1);
        simulation.run(timeout_ns * 4, |_| {});
        assert_eq!(
            simulation.outcomes,
            Outcomes { completed: 1, failed: 1 },
            "persistent_socket={persistent_socket}: a dropped response must not resolve"
        );
        assert_eq!(simulation.pool.resolver(0).persistent_socket(), persistent_socket);
        assert_eq!(simulation.pool.resolver(0).in_flight(), 0);
        assert_eq!(simulation.sim.dropped, 1);
    }
}
