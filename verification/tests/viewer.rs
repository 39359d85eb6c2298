use replicants::genome::HasGenome;
use replicants::net::NetGenome;
use replicants::render::Dot;
use replicants::render::Render;
use replicants::replicant::Replicant;
use replicants::replicant::Survival;
use replicants::server::Server;

#[test]
fn pace_goes_up_by_five_and_falls_back() {
    let mut r = Render::new();
    assert_eq!(r, Render { tps: 10, highlight_pools: true });
    let mut seen = vec![];
    for _ in 0..6 {
        r.go_faster();
        seen.push(r.tps);
    }
    assert_eq!(seen, vec![50, 250, 1250, 6250, 10, 50]);
    let mut edge = Render { tps: 2000, highlight_pools: false };
    edge.go_faster();
    assert_eq!(edge.tps, 10000);
    edge.go_faster();
    assert_eq!(edge.tps, 10);
    assert!(!edge.highlight_pools);
    edge.view_pools();
    assert!(edge.highlight_pools);
    edge.view_pools();
    assert!(!edge.highlight_pools);
}

#[test]
fn frames_and_runs_follow_the_pace() {
    let at = |tps| Render { tps, highlight_pools: true };
    assert_eq!(at(10).iter_interval(), 100);
    assert_eq!(at(1).iter_interval(), 1000);
    assert_eq!(at(30).iter_interval(), 33);
    assert_eq!(at(6250).iter_interval(), 33);
    assert_eq!(at(7).iter_interval(), 142);
    assert_eq!(at(10).runs_per_frame(), 1);
    assert_eq!(at(1).runs_per_frame(), 1);
    assert_eq!(at(44).runs_per_frame(), 1);
    assert_eq!(at(45).runs_per_frame(), 2);
    assert_eq!(at(50).runs_per_frame(), 2);
    assert_eq!(at(250).runs_per_frame(), 8);
    assert_eq!(at(10000).runs_per_frame(), 333);
}

#[test]
fn frame_has_a_dot_for_every_agent() {
    let mut s = Server::new(10, 10, 3, 1, Survival::EastHalf).unwrap();
    let mut reps = vec![];
    for (color, pos) in [([1000, 0, 0], (7, 1)), ([200, 600, 400], (2, 2)), ([5, 5, 9], (5, 9))] {
        let mut g = NetGenome::new();
        g.color = color;
        let mut r = Replicant::from_genome(&g);
        r.pos = pos;
        reps.push(r);
    }
    s.sim.replicants = reps;
    let groups = Render { tps: 10, highlight_pools: true }.frame(&s);
    assert_eq!(
        groups,
        vec![
            Dot { pos: (7, 1), rgb: (1000, 300, 100), opacity: 1000 },
            Dot { pos: (2, 2), rgb: (300, 1000, 100), opacity: 400 },
            Dot { pos: (5, 9), rgb: (200, 400, 1000), opacity: 1000 },
        ]
    );
    let own = Render { tps: 10, highlight_pools: false }.frame(&s);
    assert_eq!(own[0], Dot { pos: (7, 1), rgb: (1000, 200, 200), opacity: 1000 });
    assert_eq!(own[1], Dot { pos: (2, 2), rgb: (440, 1000, 840), opacity: 400 });
    assert_eq!(own[2], Dot { pos: (5, 9), rgb: (596, 596, 916), opacity: 1000 });
    assert!(Render::new().frame(&Server::new(1, 1, 0, 0, Survival::Crowd).unwrap()).is_empty());
}
