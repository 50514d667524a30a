use syl::bytecode::{Bytecode, CompactBytecode, IncrementalCompiler, RegisterAllocator};
use syl::cache::{CacheKey, CacheStats};
use syl::memory::{get_interpreter_pool, Arena, MemoryStats, ObjectPool, ThreadLocalObjectPool};
use syl::plugin::{Plugin, PluginManager};
use syl::profiler::{Profiler, SimpleStats};
use syl::rule_processor::RulePriority;
use syl::types::{IntegerValue, StringValue, Value};

#[test]
fn string_value() {
    let s = StringValue::new("héllo".to_string());
    assert_eq!(s.as_str(), "héllo");
    assert_eq!(s.len(), 6);
    assert_eq!(Value::String(s).to_string(), "héllo");
}

#[test]
fn object_pool_hands_out_the_first_free_slot() {
    let mut pool: ObjectPool<u64> = ObjectPool::new(2);
    let a = pool.get().unwrap();
    assert_eq!(a.index(), 0);
    assert_eq!(a.get(), Some(0));
    let mut b = pool.get().unwrap();
    assert_eq!(b.index(), 1);
    assert_eq!(b.get_mut(), Some(0));
    assert!(pool.get().is_none());
    pool.return_object(0);
    pool.return_object(7);
    assert_eq!(pool.get().unwrap().index(), 0);
    assert_eq!(pool.get_object(1), Some(0));
    assert_eq!(pool.get_object_mut(2), None);
    let mut local: ThreadLocalObjectPool<u64> = ThreadLocalObjectPool::new(1);
    assert!(local.get().is_some());
    assert!(local.get().is_none());
}

#[test]
fn interpreter_pool_has_ten_of_each() {
    let mut pool = get_interpreter_pool();
    for i in 0..10 {
        assert_eq!(pool.get_stack().unwrap().index(), i);
        assert_eq!(pool.get_variables().unwrap().index(), i);
    }
    assert!(pool.get_stack().is_none());
    assert!(pool.get_variables().is_none());
}

#[test]
fn arena_and_counters() {
    let mut arena = Arena::new();
    arena.clear();
    let mut m = MemoryStats::new();
    m.record_clone();
    m.record_clone();
    assert_eq!(m.clone_operations, 2);
    m.reset();
    assert_eq!(m.clone_operations, 0);
    let mut c = CacheStats::new();
    c.record_lookup(true);
    c.record_lookup(true);
    c.record_lookup(false);
    c.record_put(5);
    assert_eq!((c.hits, c.misses, c.puts, c.total_size), (2, 1, 1, 5));
    assert_eq!(c.hit_percent(), 66);
    c.reset();
    assert_eq!((c.hits, c.misses, c.puts, c.total_size), (0, 0, 0, 0));
    assert_eq!(c.hit_percent(), 0);
    assert!(CacheKey::Rule("a".to_string()).same(&CacheKey::Rule("a".to_string())));
    assert!(!CacheKey::Rule("a".to_string()).same(&CacheKey::Function("a".to_string())));
}

struct Named {
    name: String,
    fails: bool,
    started: bool,
}

impl Plugin for Named {
    fn name(&self) -> &str {
        &self.name
    }

    fn initialize(&mut self) -> Result<(), String> {
        self.started = true;
        if self.fails {
            Err(format!("{} failed", self.name))
        } else {
            Ok(())
        }
    }
}

#[test]
fn plugins_are_initialized_in_order_up_to_the_first_failure() {
    let mut manager: PluginManager<Named> = PluginManager::new();
    assert_eq!(manager.initialize_all(), Ok(()));
    manager.add_plugin(Named { name: "a".to_string(), fails: false, started: false });
    manager.add_plugin(Named { name: "b".to_string(), fails: true, started: false });
    manager.add_plugin(Named { name: "c".to_string(), fails: true, started: false });
    assert_eq!(manager.len(), 3);
    assert_eq!(manager.initialize_all(), Err("b failed".to_string()));
    assert_eq!(manager.len(), 3);
}

#[test]
fn profiler_statistics() {
    let mut s = SimpleStats::new();
    assert_eq!(s.get_average(), 0);
    s.add_duration(10);
    s.add_duration(5);
    assert_eq!((s.get_total(), s.get_count(), s.get_min(), s.get_max()), (15, 2, 5, 10));
    assert_eq!(s.get_average(), 7);

    let mut p = Profiler::new_disabled();
    p.start("a");
    p.end("a");
    assert_eq!(p.export_json(), "{}");
    assert_eq!(p.event_count(), 0);

    let mut p = Profiler::new();
    p.end("never started");
    assert_eq!(p.event_count(), 0);
    p.start("a");
    p.end("a");
    assert_eq!(p.metric_count(), 1);
    assert_eq!(p.metric_name(0), "a");
    assert_eq!(p.metric_stats(0).get_count(), 1);
    assert_eq!(p.event_count(), 2);
    let json = p.export_json_at(&vec![7, 9]);
    let s = p.metric_stats(0);
    assert_eq!(
        json,
        format!(
            "{{\"stats\": {{\"a\": {{\"total\": {},\"average\": {},\"min\": {},\"max\": {},\"count\": 1}}}}, \"events\": [{{\"name\": \"a\", \"type\": \"start\", \"time\": 7}},{{\"name\": \"a\", \"type\": \"end\", \"time\": 9}}]}}",
            s.get_total(),
            s.get_average(),
            s.get_min(),
            s.get_max()
        )
    );
    p.set_enabled(false);
    assert!(!p.enabled());
    p.clear();
    assert_eq!(p.metric_count(), 0);
}

#[test]
fn rule_priorities() {
    let a = RulePriority { precedence: 10, frequency: 1 };
    let b = RulePriority { precedence: 9, frequency: 100 };
    let c = RulePriority { precedence: 9, frequency: 99 };
    assert!(a.outranks(&b));
    assert!(b.outranks(&c));
    assert!(!c.outranks(&b));
    assert!(!a.outranks(&a));
}

#[test]
fn registers_are_taken_in_order() {
    let mut r = RegisterAllocator::new();
    assert_eq!(r.allocate_register_for_var("x"), Some(0));
    assert_eq!(r.allocate_register_for_var("y"), Some(1));
    assert_eq!(r.allocate_register_for_var("x"), Some(0));
    r.free_register_for_var("x");
    assert_eq!(r.allocate_register(), Some(0));
    for i in 2..8 {
        assert_eq!(r.allocate_register(), Some(i));
    }
    assert_eq!(r.allocate_register(), None);
    assert_eq!(r.allocate_register_for_var("z"), None);
    r.free_register(9);
    r.free_register(3);
    assert_eq!(r.allocate_register_for_var("z"), Some(3));
}

#[test]
fn a_freed_variable_has_no_register() {
    let mut r = RegisterAllocator::new();
    assert_eq!(r.allocate_register_for_var("x"), Some(0));
    assert_eq!(r.allocate_register_for_var("y"), Some(1));
    r.free_register_for_var("x");
    // The register of `x` is free again, and `x` is no longer bound to it.
    assert_eq!(r.allocate_register(), Some(0));
    assert_eq!(r.allocate_register_for_var("x"), Some(2));
    assert_eq!(r.allocate_register_for_var("y"), Some(1));
    // Freeing a variable that has no register changes nothing.
    r.free_register_for_var("z");
    assert_eq!(r.allocate_register_for_var("x"), Some(2));
    assert_eq!(r.allocate_register(), Some(3));
}

#[test]
fn compact_form() {
    let c = CompactBytecode::from_bytecode(&Bytecode::LoadConst(Value::Integer(
        IntegerValue::I8(-12),
    )));
    assert_eq!(c.as_bytes(), &vec![1u8, 3, b'-', b'1', b'2']);
    assert_eq!(c.to_bytecode(), Bytecode::LoadConst(Value::Integer(IntegerValue::I64(-12))));
    assert_eq!(CompactBytecode::from_bytecode(&Bytecode::Add).as_bytes(), &vec![0x10u8]);
    assert_eq!(CompactBytecode::from_bytecode(&Bytecode::Sub).to_bytecode(), Bytecode::Sub);
    assert_eq!(CompactBytecode::from_bytecode(&Bytecode::Mul).to_bytecode(), Bytecode::Mul);
    assert_eq!(CompactBytecode::from_bytecode(&Bytecode::Out).as_bytes(), &vec![0xFFu8]);
    assert_eq!(CompactBytecode::from_bytecode(&Bytecode::Out).to_bytecode(), Bytecode::Return);
    let zero = Bytecode::LoadConst(Value::Integer(IntegerValue::I64(0)));
    assert_eq!(CompactBytecode::from_bytes(vec![1, 2, b'x', b'1']).to_bytecode(), zero);
    assert_eq!(CompactBytecode::from_bytes(vec![1, 2, 0xC3, 0xA9]).to_bytecode(), zero);
    assert_eq!(CompactBytecode::from_bytes(vec![1, 5, b'1']).to_bytecode(), Bytecode::Return);
    assert_eq!(CompactBytecode::from_bytes(vec![1]).to_bytecode(), Bytecode::Return);
    assert_eq!(CompactBytecode::from_bytes(vec![]).to_bytecode(), Bytecode::Return);
    assert_eq!(
        CompactBytecode::from_bytes(vec![1, 2, b'+', b'7', 9]).to_bytecode(),
        Bytecode::LoadConst(Value::Integer(IntegerValue::I64(7)))
    );
}

#[test]
fn the_cache_answers_for_the_same_definition() {
    let body = syl::parser::parse(syl::lexer::tokenize("return n + 1").unwrap()).unwrap().statements;
    let other = syl::parser::parse(syl::lexer::tokenize("return n + 2").unwrap()).unwrap().statements;
    let params = vec!["n".to_string()];
    let known: Vec<String> = vec![];
    let h1 = IncrementalCompiler::compute_function_hash("f", &params, &body);
    let h2 = IncrementalCompiler::compute_function_hash("f", &params, &other);
    let h3 = IncrementalCompiler::compute_function_hash("g", &params, &body);
    assert_eq!(h1, IncrementalCompiler::compute_function_hash("f", &params, &body));
    assert_ne!(h1, h2);
    assert_ne!(h1, h3);
    let mut compiler = IncrementalCompiler::new();
    let first = compiler.compile_function("f", &params, &body, &known);
    assert_eq!(compiler.cache.len(), 1);
    assert_eq!(compiler.cache.get("f").unwrap().hash, h1);
    let again = compiler.compile_function("f", &params, &body, &known);
    assert_eq!(first.instructions, again.instructions);
    let changed = compiler.compile_function("f", &params, &other, &known);
    assert_ne!(first.instructions, changed.instructions);
    assert_eq!(compiler.cache.len(), 1);
    assert_eq!(compiler.cache.get("f").unwrap().hash, h2);
}

#[test]
fn constants_are_moved_to_the_front_of_a_loop_body() {
    let body =
        syl::parser::parse(syl::lexer::tokenize("out i k = 2 * 3 i += k").unwrap()).unwrap().statements;
    let code = syl::bytecode::optimize_loop_body(&body, &vec![]);
    assert_eq!(
        code,
        vec![
            Bytecode::LoadConst(Value::Integer(IntegerValue::I8(6))),
            Bytecode::StoreVar("k".to_string()),
            Bytecode::LoadVar("i".to_string()),
            Bytecode::Out,
            Bytecode::LoadVar("i".to_string()),
            Bytecode::LoadVar("k".to_string()),
            Bytecode::Add,
            Bytecode::StoreVar("i".to_string()),
        ]
    );
    match &body[1] {
        syl::ast::Stmt::Assign(_, e) => assert!(syl::bytecode::is_loop_invariant(e)),
        _ => unreachable!(),
    }
    match &body[2] {
        syl::ast::Stmt::Assign(_, e) => assert!(!syl::bytecode::is_loop_invariant(e)),
        _ => unreachable!(),
    }
}

#[test]
fn the_first_failure_is_reported() {
    let outcomes = vec![Ok(()), Err("second".to_string()), Err("third".to_string())];
    assert_eq!(syl::plugin::first_failure(&outcomes), Err("second".to_string()));
    assert_eq!(syl::plugin::first_failure(&vec![Ok(()), Ok(())]), Ok(()));
    assert_eq!(syl::plugin::first_failure(&vec![]), Ok(()));
}

#[test]
fn a_pool_is_used_through_its_trait() {
    let mut pool: ObjectPool<u64> = ObjectPool::new(1);
    assert!(pool.get().is_some());
    assert!(pool.get().is_none());
    syl::memory::ObjectPoolTrait::return_object(&mut pool, 0);
    assert_eq!(syl::memory::ObjectPoolTrait::get_object(&pool, 0), Some(0));
    assert_eq!(syl::memory::ObjectPoolTrait::get_object_mut(&pool, 1), None);
    assert!(pool.get().is_some());
}

struct Logged {
    name: String,
    fails: bool,
    log: std::rc::Rc<std::cell::RefCell<Vec<String>>>,
}

impl Plugin for Logged {
    fn name(&self) -> &str {
        &self.name
    }

    fn initialize(&mut self) -> Result<(), String> {
        self.log.borrow_mut().push(self.name.clone());
        if self.fails {
            Err(format!("{} failed", self.name))
        } else {
            Ok(())
        }
    }
}

#[test]
fn each_plugin_is_initialized_once_in_order_and_none_after_a_failure() {
    let log = std::rc::Rc::new(std::cell::RefCell::new(Vec::new()));
    let plugin = |name: &str, fails: bool| Logged { name: name.to_string(), fails, log: log.clone() };
    let mut manager: PluginManager<Logged> = PluginManager::new();
    manager.add_plugin(plugin("a", false));
    manager.add_plugin(plugin("b", false));
    assert_eq!(manager.initialize_all(), Ok(()));
    assert_eq!(*log.borrow(), vec!["a".to_string(), "b".to_string()]);
    log.borrow_mut().clear();
    manager.add_plugin(plugin("c", true));
    manager.add_plugin(plugin("d", false));
    assert_eq!(manager.initialize_all(), Err("c failed".to_string()));
    assert_eq!(*log.borrow(), vec!["a".to_string(), "b".to_string(), "c".to_string()]);
    assert_eq!(manager.len(), 4);
    // The plugins have kept their places.
    log.borrow_mut().clear();
    assert_eq!(manager.initialize_all(), Err("c failed".to_string()));
    assert_eq!(*log.borrow(), vec!["a".to_string(), "b".to_string(), "c".to_string()]);
}
