use classvm::class::{Class, JavaClass};
use classvm::constant_pool::{ConstantPoolInfo, Utf8};
use classvm::error::VmError;
use classvm::field_info::Field;
use classvm::runtime::Runtime;
use classvm::things::Value;

// ---- a tiny class-file assembler for the tests ----

struct Cp {
    bytes: Vec<u8>,
    count: u16,
}

impl Cp {
    fn new() -> Cp {
        Cp {
            bytes: Vec::new(),
            count: 0,
        }
    }
    fn utf8(&mut self, s: &str) -> u16 {
        self.bytes.push(1);
        self.bytes.extend_from_slice(&(s.len() as u16).to_be_bytes());
        self.bytes.extend_from_slice(s.as_bytes());
        self.count += 1;
        self.count
    }
    fn class(&mut self, name_index: u16) -> u16 {
        self.bytes.push(7);
        self.bytes.extend_from_slice(&name_index.to_be_bytes());
        self.count += 1;
        self.count
    }
    fn name_and_type(&mut self, name: u16, desc: u16) -> u16 {
        self.bytes.push(12);
        self.bytes.extend_from_slice(&name.to_be_bytes());
        self.bytes.extend_from_slice(&desc.to_be_bytes());
        self.count += 1;
        self.count
    }
    fn fieldref(&mut self, class: u16, nat: u16) -> u16 {
        self.bytes.push(9);
        self.bytes.extend_from_slice(&class.to_be_bytes());
        self.bytes.extend_from_slice(&nat.to_be_bytes());
        self.count += 1;
        self.count
    }
    fn methodref(&mut self, class: u16, nat: u16) -> u16 {
        self.bytes.push(10);
        self.bytes.extend_from_slice(&class.to_be_bytes());
        self.bytes.extend_from_slice(&nat.to_be_bytes());
        self.count += 1;
        self.count
    }
}

struct MethodSpec {
    flags: u16,
    name_index: u16,
    desc_index: u16,
    max_stack: u16,
    max_locals: u16,
    code: Vec<u8>,
}

struct FieldSpec {
    flags: u16,
    name_index: u16,
    desc_index: u16,
}

fn emit_class(
    cp: Cp,
    code_utf8: u16,
    this_class: u16,
    super_class: u16,
    fields: &[FieldSpec],
    methods: &[MethodSpec],
) -> Vec<u8> {
    let mut out: Vec<u8> = Vec::new();
    out.extend_from_slice(&0xcafebabeu32.to_be_bytes());
    out.extend_from_slice(&0u16.to_be_bytes()); // minor
    out.extend_from_slice(&52u16.to_be_bytes()); // major
    out.extend_from_slice(&(cp.count + 1).to_be_bytes());
    out.extend_from_slice(&cp.bytes);
    out.extend_from_slice(&0x0021u16.to_be_bytes()); // access flags
    out.extend_from_slice(&this_class.to_be_bytes());
    out.extend_from_slice(&super_class.to_be_bytes());
    out.extend_from_slice(&0u16.to_be_bytes()); // interfaces
    out.extend_from_slice(&(fields.len() as u16).to_be_bytes());
    for f in fields {
        out.extend_from_slice(&f.flags.to_be_bytes());
        out.extend_from_slice(&f.name_index.to_be_bytes());
        out.extend_from_slice(&f.desc_index.to_be_bytes());
        out.extend_from_slice(&0u16.to_be_bytes()); // no attributes
    }
    out.extend_from_slice(&(methods.len() as u16).to_be_bytes());
    for m in methods {
        out.extend_from_slice(&m.flags.to_be_bytes());
        out.extend_from_slice(&m.name_index.to_be_bytes());
        out.extend_from_slice(&m.desc_index.to_be_bytes());
        out.extend_from_slice(&1u16.to_be_bytes()); // one attribute: Code
        out.extend_from_slice(&code_utf8.to_be_bytes());
        let attr_len = 2 + 2 + 4 + m.code.len() + 2 + 2;
        out.extend_from_slice(&(attr_len as u32).to_be_bytes());
        out.extend_from_slice(&m.max_stack.to_be_bytes());
        out.extend_from_slice(&m.max_locals.to_be_bytes());
        out.extend_from_slice(&(m.code.len() as u32).to_be_bytes());
        out.extend_from_slice(&m.code);
        out.extend_from_slice(&0u16.to_be_bytes()); // exception table
        out.extend_from_slice(&0u16.to_be_bytes()); // attributes
    }
    out.extend_from_slice(&0u16.to_be_bytes()); // class attributes
    out
}

/// A `Main` class with one static method `main ()I` holding the code.
fn main_class_with(code: Vec<u8>, max_stack: u16, max_locals: u16) -> Vec<u8> {
    let mut cp = Cp::new();
    let n_main = cp.utf8("Main");
    let c_this = cp.class(n_main);
    let n_obj = cp.utf8("java/lang/Object");
    let c_super = cp.class(n_obj);
    let n_m = cp.utf8("main");
    let n_d = cp.utf8("()I");
    let n_code = cp.utf8("Code");
    emit_class(
        cp,
        n_code,
        c_this,
        c_super,
        &[],
        &[MethodSpec {
            flags: 0x0009,
            name_index: n_m,
            desc_index: n_d,
            max_stack,
            max_locals,
            code,
        }],
    )
}

#[test]
fn main_returning_two_times_five_resolves_to_ten() {
    // iconst_2, iconst_5, imul, ireturn
    let image = main_class_with(vec![0x05, 0x08, 0x68, 0xac], 2, 0);
    let mut rt = Runtime::new(image, vec![]).unwrap();
    let r = rt.run_main().unwrap();
    assert_eq!(r.unwrap().as_int(), 10);
}

#[test]
fn dividing_five_by_zero_is_a_division_fatal_condition() {
    // iconst_5, iconst_0, idiv, ireturn
    let image = main_class_with(vec![0x08, 0x03, 0x6c, 0xac], 2, 0);
    let mut rt = Runtime::new(image, vec![]).unwrap();
    assert_eq!(rt.run_main(), Err(VmError::DivisionByZero));
}

#[test]
fn branch_comparison_picks_the_taken_path() {
    // bipush 10; bipush 3; if_icmpgt +7; iconst_0; goto +4; iconst_1;
    // ireturn -- ten is greater than three, so the result is one.
    let code = vec![
        0x10, 10, 0x10, 3, 0xa3, 0x00, 0x07, 0x03, 0xa7, 0x00, 0x04, 0x04, 0xac,
    ];
    let image = main_class_with(code, 2, 0);
    let mut rt = Runtime::new(image, vec![]).unwrap();
    assert_eq!(rt.run_main().unwrap().unwrap().as_int(), 1);
}

#[test]
fn loop_with_iinc_counts_down() {
    // Sum 5 + 4 + 3 + 2 + 1 with a counted loop:
    //  0: bipush 5      (local 0 = counter)
    //  2: istore_0
    //  3: iconst_0      (accumulator on the stack)
    //  4: iload_0       -- loop head, byte 4
    //  5: ifeq +11      (to byte 16: done)
    //  8: iload_0
    //  9: iadd
    // 10: iinc 0, -1
    // 13: goto -9       (back to byte 4)
    // 14: ireturn
    let code = vec![
        0x10, 5, 0x3b, 0x03, 0x1a, 0x99, 0x00, 0x0b, 0x1a, 0x60, 0x84, 0x00, 0xff, 0xa7, 0xff,
        0xf7, 0xac,
    ];
    let image = main_class_with(code, 3, 1);
    let mut rt = Runtime::new(image, vec![]).unwrap();
    assert_eq!(rt.run_main().unwrap().unwrap().as_int(), 15);
}

/// Class `B` declaring one static int field `x`.
fn class_b_image() -> Vec<u8> {
    let mut cp = Cp::new();
    let n_b = cp.utf8("B");
    let c_this = cp.class(n_b);
    let n_obj = cp.utf8("java/lang/Object");
    let c_super = cp.class(n_obj);
    let n_x = cp.utf8("x");
    let n_i = cp.utf8("I");
    let n_code = cp.utf8("Code");
    emit_class(
        cp,
        n_code,
        c_this,
        c_super,
        &[FieldSpec {
            flags: 0x0009,
            name_index: n_x,
            desc_index: n_i,
        }],
        &[],
    )
}

/// Class `A` whose `main` writes then reads `B.x` through its own pool.
fn class_a_image(field_class: &str, field_name: &str) -> Vec<u8> {
    let mut cp = Cp::new();
    let n_a = cp.utf8("A");
    let c_this = cp.class(n_a);
    let n_obj = cp.utf8("java/lang/Object");
    let c_super = cp.class(n_obj);
    let n_m = cp.utf8("main");
    let n_d = cp.utf8("()I");
    let n_code = cp.utf8("Code");
    let n_b = cp.utf8(field_class);
    let c_b = cp.class(n_b);
    let n_x = cp.utf8(field_name);
    let n_i = cp.utf8("I");
    let nat = cp.name_and_type(n_x, n_i);
    let fr = cp.fieldref(c_b, nat);
    // bipush 42; putstatic fr; getstatic fr; ireturn
    let code = vec![
        0x10,
        42,
        0xb3,
        (fr >> 8) as u8,
        fr as u8,
        0xb2,
        (fr >> 8) as u8,
        fr as u8,
        0xac,
    ];
    emit_class(
        cp,
        n_code,
        c_this,
        c_super,
        &[],
        &[MethodSpec {
            flags: 0x0009,
            name_index: n_m,
            desc_index: n_d,
            max_stack: 1,
            max_locals: 0,
            code,
        }],
    )
}

#[test]
fn getstatic_resolves_through_the_pool_to_the_owning_class() {
    let mut rt = Runtime::new(
        class_a_image("B", "x"),
        vec![("B".to_string(), class_b_image())],
    )
    .unwrap();
    let r = rt.run_main().unwrap();
    assert_eq!(r.unwrap().as_int(), 42);
    // The value lives in B's own storage.
    let bi = rt.get_class(&"B".to_string()).unwrap();
    let v = rt.classes[bi].get_static(&"x".to_string()).unwrap();
    assert_eq!(v.as_int(), 42);
}

#[test]
fn a_missing_class_is_class_not_found() {
    let mut rt = Runtime::new(class_a_image("Missing", "x"), vec![]).unwrap();
    assert_eq!(rt.run_main(), Err(VmError::ClassNotFound));
}

#[test]
fn a_missing_field_is_member_not_found() {
    let mut rt = Runtime::new(
        class_a_image("B", "nope"),
        vec![("B".to_string(), class_b_image())],
    )
    .unwrap();
    assert_eq!(rt.run_main(), Err(VmError::MemberNotFound));
}

/// A `Main` class where `main` calls a helper and mixes the results.
fn caller_callee_image() -> Vec<u8> {
    let mut cp = Cp::new();
    let n_main_cls = cp.utf8("Main");
    let c_this = cp.class(n_main_cls);
    let n_obj = cp.utf8("java/lang/Object");
    let c_super = cp.class(n_obj);
    let n_main = cp.utf8("main");
    let n_g = cp.utf8("g");
    let n_d = cp.utf8("()I");
    let n_code = cp.utf8("Code");
    let nat_g = cp.name_and_type(n_g, n_d);
    let mr_g = cp.methodref(c_this, nat_g);
    // main: bipush 9; istore_0; iconst_2; iconst_3; invokestatic g;
    //       iadd; iadd; iload_0; iadd; ireturn
    let main_code = vec![
        0x10,
        9,
        0x3b,
        0x05,
        0x06,
        0xb8,
        (mr_g >> 8) as u8,
        mr_g as u8,
        0x60,
        0x60,
        0x1a,
        0x60,
        0xac,
    ];
    // g: bipush 7; istore_0; iload_0; ireturn -- it scribbles on its
    // own local, never on the caller's.
    let g_code = vec![0x10, 7, 0x3b, 0x1a, 0xac];
    emit_class(
        cp,
        n_code,
        c_this,
        c_super,
        &[],
        &[
            MethodSpec {
                flags: 0x0009,
                name_index: n_main,
                desc_index: n_d,
                max_stack: 3,
                max_locals: 1,
                code: main_code,
            },
            MethodSpec {
                flags: 0x0009,
                name_index: n_g,
                desc_index: n_d,
                max_stack: 1,
                max_locals: 1,
                code: g_code,
            },
        ],
    )
}

#[test]
fn a_call_leaves_the_caller_frame_intact_and_pushes_one_result() {
    // The caller's operand stack gains exactly the callee's one return
    // value, and the callee's writes to its own local zero never reach
    // the caller's local zero: 2 + 3 + 7 + 9.
    let mut rt = Runtime::new(caller_callee_image(), vec![]).unwrap();
    assert_eq!(rt.run_main().unwrap().unwrap().as_int(), 21);
}

/// A `Main` whose `main` calls itself forever.
fn self_recursion_image() -> Vec<u8> {
    let mut cp = Cp::new();
    let n_main_cls = cp.utf8("Main");
    let c_this = cp.class(n_main_cls);
    let n_obj = cp.utf8("java/lang/Object");
    let c_super = cp.class(n_obj);
    let n_main = cp.utf8("main");
    let n_d = cp.utf8("()I");
    let n_code = cp.utf8("Code");
    let nat = cp.name_and_type(n_main, n_d);
    let mr = cp.methodref(c_this, nat);
    let code = vec![0xb8, (mr >> 8) as u8, mr as u8, 0xac];
    emit_class(
        cp,
        n_code,
        c_this,
        c_super,
        &[],
        &[MethodSpec {
            flags: 0x0009,
            name_index: n_main,
            desc_index: n_d,
            max_stack: 1,
            max_locals: 0,
            code,
        }],
    )
}

#[test]
fn unbounded_recursion_overflows_the_stack_region() {
    let mut rt = Runtime::new(self_recursion_image(), vec![]).unwrap();
    assert_eq!(rt.run_main(), Err(VmError::StackOverflow));
}

#[test]
fn unimplemented_instructions_fail_with_their_opcode() {
    // new #1; ireturn
    let image = main_class_with(vec![0xbb, 0x00, 0x01, 0xac], 1, 0);
    let mut rt = Runtime::new(image, vec![]).unwrap();
    assert_eq!(rt.run_main(), Err(VmError::Unimplemented(0xbb)));
}

#[test]
fn popping_an_empty_operand_stack_is_fatal() {
    let image = main_class_with(vec![0xac], 1, 0);
    let mut rt = Runtime::new(image, vec![]).unwrap();
    assert_eq!(rt.run_main(), Err(VmError::EmptyOperandStack));
}

#[test]
fn running_past_the_code_end_is_an_overrun() {
    let image = main_class_with(vec![0x00], 1, 0);
    let mut rt = Runtime::new(image, vec![]).unwrap();
    assert_eq!(rt.run_main(), Err(VmError::PcOverrun));
}

#[test]
fn a_malformed_main_image_is_a_class_format_error() {
    match Runtime::new(vec![0xca, 0xfe], vec![]) {
        Err(VmError::ClassFormat) => {}
        other => panic!("expected ClassFormat, got {:?}", other.map(|_| ())),
    }
}

#[test]
fn two_file_defined_classes_of_one_name_conflict() {
    let image = main_class_with(vec![0x03, 0xac], 1, 0);
    let mut rt = Runtime::new(image, vec![]).unwrap();
    let second = JavaClass {
        name: "Main".to_string(),
        constant_pool: vec![],
        access_flags: 0,
        super_class: None,
        interfaces: vec![],
        static_fields: vec![],
        instance_fields: vec![],
        methods: vec![],
        attributes: vec![],
    };
    assert_eq!(rt.add_class(Class::Java(second)), Err(VmError::MergeConflict));
}

#[test]
fn loading_is_idempotent() {
    let mut rt = Runtime::new(
        class_a_image("B", "x"),
        vec![("B".to_string(), class_b_image())],
    )
    .unwrap();
    let first = rt.load("B".to_string(), 4).unwrap();
    let classes_after_first = rt.classes.len();
    let second = rt.load("B".to_string(), 4).unwrap();
    assert_eq!(first, second);
    assert_eq!(rt.classes.len(), classes_after_first);
}

#[test]
fn utf8_entries_decode_their_text() {
    let e = ConstantPoolInfo::Utf8(Utf8 {
        length: 4,
        bytes: b"Main".to_vec(),
    });
    assert_eq!(e.utf8(), Some("Main".to_string()));
    let bad = ConstantPoolInfo::Utf8(Utf8 {
        length: 1,
        bytes: vec![0xff],
    });
    assert_eq!(bad.utf8(), None);
    assert_eq!(e.tag(), 1);
}

#[test]
fn instance_fields_are_laid_out_in_name_order() {
    let f = |n: &str| Field {
        access_flags: 0,
        name: n.to_string(),
        descriptor: "I".to_string(),
        value: Value::null(),
        offset: 0,
    };
    let sorted = classvm::class::sort_fields_by_name(vec![f("beta"), f("alpha"), f("gamma")]);
    let names: Vec<&str> = sorted.iter().map(|x| x.name.as_str()).collect();
    assert_eq!(names, vec!["alpha", "beta", "gamma"]);
}
