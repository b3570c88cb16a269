use stateless::machine::Machine;
use stateless::pipeline::statemachine;

struct Robot {
    m: Machine,
    state: usize,
    battery: u32,
    connection_id: u32,
    tick_count: u32,
    max_connections: u32,
}

impl Robot {
    fn new(m: Machine) -> Self {
        let state = m.initial_state().unwrap();
        Robot { m, state, battery: 100, connection_id: 0, tick_count: 0, max_connections: 5 }
    }

    fn next(&self, event: &str) -> Option<usize> {
        let e = self.m.event_id(event).unwrap();
        self.m.process_event(self.state, e)
    }

    fn is(&self, name: &str) -> bool {
        self.m.state_id(name) == Some(self.state)
    }

    fn start(&mut self) {
        let Some(new_state) = self.next("Start") else {
            return;
        };
        if self.battery < 20 {
            return;
        }
        self.battery -= 10;
        self.state = new_state;
    }

    fn pause(&mut self) {
        if let Some(new_state) = self.next("Pause") {
            self.state = new_state;
        }
    }

    fn stop(&mut self) {
        if let Some(new_state) = self.next("Stop") {
            self.state = new_state;
        }
    }

    fn connect(&mut self, id: u32) {
        let Some(new_state) = self.next("Connect") else {
            return;
        };
        if id > self.max_connections {
            return;
        }
        if self.battery < 5 {
            return;
        }
        self.connection_id = id;
        self.battery -= 5;
        self.state = new_state;
    }

    fn disconnect(&mut self) {
        if let Some(new_state) = self.next("Disconnect") {
            self.connection_id = 0;
            self.state = new_state;
        }
    }

    fn tick(&mut self) {
        if let Some(new_state) = self.next("Tick") {
            self.tick_count += 1;
            self.state = new_state;
        }
    }

    fn reset(&mut self) {
        if let Some(new_state) = self.next("Reset") {
            self.battery = 100;
            self.connection_id = 0;
            self.tick_count = 0;
            self.state = new_state;
        }
    }
}

#[test]
fn comprehensive_state_machine_features() {
    let m = statemachine(
        "derive_states: [Debug, Clone, PartialEq, Eq, Hash],
        derive_events: [Debug, Clone, PartialEq],
        transitions: {
            *Idle + Start = Running,
            Running + Pause | Stop = Idle,
            Idle | Running + Connect = Connected,
            Connected + Disconnect = Idle,
            Connected + Tick = _,
            _ + Reset = Idle,
        }",
    )
    .ok()
    .unwrap();

    let mut machine = Robot::new(m);

    assert!(machine.is("Idle"));
    assert_eq!(machine.battery, 100);

    machine.start();
    assert!(machine.is("Running"));
    assert_eq!(machine.battery, 90);

    machine.pause();
    assert!(machine.is("Idle"));

    machine.start();
    assert!(machine.is("Running"));
    assert_eq!(machine.battery, 80);

    machine.stop();
    assert!(machine.is("Idle"));

    machine.connect(3);
    assert!(machine.is("Connected"));
    assert_eq!(machine.connection_id, 3);
    assert_eq!(machine.battery, 75);

    machine.tick();
    assert!(machine.is("Connected"));
    assert_eq!(machine.tick_count, 1);

    machine.tick();
    assert_eq!(machine.tick_count, 2);

    machine.disconnect();
    assert!(machine.is("Idle"));
    assert_eq!(machine.connection_id, 0);

    machine.start();
    machine.connect(4);
    assert!(machine.is("Connected"));

    machine.reset();
    assert!(machine.is("Idle"));
    assert_eq!(machine.battery, 100);
    assert_eq!(machine.connection_id, 0);
    assert_eq!(machine.tick_count, 0);

    machine.battery = 10;
    machine.start();
    assert!(machine.is("Idle"));

    machine.battery = 100;
    machine.start();
    machine.connect(10);
    assert!(machine.is("Running"));
    assert_eq!(machine.connection_id, 0);
}

#[test]
fn namespace_control() {
    let player_m = statemachine(
        "name: Player,
        transitions: {
            *Idle + Move = Walking,
            Walking + Stop = Idle,
        }",
    )
    .ok()
    .unwrap();
    let enemy_m = statemachine(
        "name: Enemy,
        transitions: {
            *Patrol + Spot = Chasing,
            Chasing + Lose = Patrol,
        }",
    )
    .ok()
    .unwrap();
    assert_eq!(player_m.name, Some(b"Player".to_vec()));
    assert_eq!(enemy_m.name, Some(b"Enemy".to_vec()));

    let mut player = player_m.initial_state().unwrap();
    assert_eq!(Some(player), player_m.state_id("Idle"));

    if let Some(new_state) = player_m.process_event(player, player_m.event_id("Move").unwrap()) {
        player = new_state;
    }
    assert_eq!(Some(player), player_m.state_id("Walking"));

    if let Some(new_state) = player_m.process_event(player, player_m.event_id("Stop").unwrap()) {
        player = new_state;
    }
    assert_eq!(Some(player), player_m.state_id("Idle"));

    let mut enemy = enemy_m.initial_state().unwrap();
    assert_eq!(Some(enemy), enemy_m.state_id("Patrol"));

    if let Some(new_state) = enemy_m.process_event(enemy, enemy_m.event_id("Spot").unwrap()) {
        enemy = new_state;
    }
    assert_eq!(Some(enemy), enemy_m.state_id("Chasing"));

    if let Some(new_state) = enemy_m.process_event(enemy, enemy_m.event_id("Lose").unwrap()) {
        enemy = new_state;
    }
    assert_eq!(Some(enemy), enemy_m.state_id("Patrol"));
}
