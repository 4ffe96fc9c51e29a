use sched_model::descriptor::{
    cpu_descriptor_from_socket_size, GenericResourceDescriptor, GenericResourceDescriptorKind,
    ResourceDescriptor,
};
use sched_model::error::ModelError;
use sched_model::ids::{CpuId, GenericResourceIndex};

fn to_ids(values: Vec<u32>) -> Vec<CpuId> {
    values.into_iter().map(CpuId::new).collect()
}

fn message(r: Result<(), ModelError>) -> String {
    match r {
        Ok(()) => panic!("the descriptor was accepted"),
        Err(e) => e.to_string(),
    }
}

#[test]
fn test_resources_to_describe() {
    let d = ResourceDescriptor::new(vec![to_ids(vec![0])], Vec::new());
    assert_eq!(&d.full_describe(), "[0]");

    let d = ResourceDescriptor::new(
        vec![to_ids(vec![0, 1, 2, 4]), to_ids(vec![10, 11, 12, 14])],
        Vec::new(),
    );
    assert_eq!(&d.full_describe(), "[0, 1, 2, 4], [10, 11, 12, 14]");
}

#[test]
fn test_socket_size_factory_end_to_end() {
    let cpus = cpu_descriptor_from_socket_size(2, 2);
    assert_eq!(cpus, vec![to_ids(vec![0, 1]), to_ids(vec![2, 3])]);
    let d = ResourceDescriptor::new(cpus, Vec::new());
    assert_eq!(d.full_describe(), "[0, 1], [2, 3]");
    assert!(d.validate().is_ok());
}

#[test]
fn test_socket_size_factory_edges() {
    assert!(cpu_descriptor_from_socket_size(0, 4).is_empty());
    assert_eq!(cpu_descriptor_from_socket_size(3, 0), vec![Vec::new(), Vec::new(), Vec::new()]);
    let cpus = cpu_descriptor_from_socket_size(3, 5);
    assert_eq!(cpus.len(), 3);
    assert_eq!(cpus[2], to_ids(vec![10, 11, 12, 13, 14]));
}

#[test]
fn test_describe_large_numbers() {
    let d = ResourceDescriptor::new(vec![to_ids(vec![u32::MAX, 1000, 909])], Vec::new());
    assert_eq!(d.full_describe(), "[4294967295, 1000, 909]");
    let d = ResourceDescriptor::new(Vec::new(), Vec::new());
    assert_eq!(d.full_describe(), "");
    let d = ResourceDescriptor::new(vec![Vec::new(), to_ids(vec![7])], Vec::new());
    assert_eq!(d.full_describe(), "[], [7]");
}

#[test]
fn test_kind_size_list() {
    let k = GenericResourceDescriptorKind::List {
        values: vec![GenericResourceIndex::new(3), GenericResourceIndex::new(3), GenericResourceIndex::new(9)],
    };
    assert_eq!(k.size(), 3);
    let k = GenericResourceDescriptorKind::List { values: Vec::new() };
    assert_eq!(k.size(), 0);
}

#[test]
fn test_kind_size_range() {
    let range = |start: u32, end: u32| GenericResourceDescriptorKind::Range {
        start: GenericResourceIndex::new(start),
        end: GenericResourceIndex::new(end),
    };
    assert_eq!(range(2, 5).size(), 4);
    assert_eq!(range(7, 7).size(), 1);
    assert_eq!(range(5, 2).size(), 0);
    assert_eq!(range(0, u32::MAX).size(), 4294967296);
    assert_eq!(range(u32::MAX, 0).size(), 0);
}

#[test]
fn test_kind_size_sum() {
    assert_eq!(GenericResourceDescriptorKind::Sum { size: 0 }.size(), 0);
    assert_eq!(GenericResourceDescriptorKind::Sum { size: 1000 }.size(), 1000);
    assert_eq!(GenericResourceDescriptorKind::Sum { size: u64::MAX }.size(), u64::MAX);
}

#[test]
fn test_kind_to_string() {
    let k = GenericResourceDescriptorKind::List {
        values: vec![GenericResourceIndex::new(1), GenericResourceIndex::new(20), GenericResourceIndex::new(3)],
    };
    assert_eq!(k.to_string(), "List(1,20,3)");
    assert_eq!(GenericResourceDescriptorKind::List { values: Vec::new() }.to_string(), "List()");
    let k = GenericResourceDescriptorKind::Range {
        start: GenericResourceIndex::new(0),
        end: GenericResourceIndex::new(15),
    };
    assert_eq!(k.to_string(), "Range(0-15)");
    assert_eq!(GenericResourceDescriptorKind::Sum { size: 1_000_000 }.to_string(), "Sum(1000000)");
}

#[test]
fn test_builders() {
    let d = GenericResourceDescriptor::range("gpus", 2u32, 4u32);
    assert_eq!(d.name, "gpus");
    assert!(matches!(
        d.kind,
        GenericResourceDescriptorKind::Range { start, end }
            if start == GenericResourceIndex::new(2) && end == GenericResourceIndex::new(4)
    ));
    assert_eq!(d.kind.size(), 3);
    let d = GenericResourceDescriptor::sum("mem", 64);
    assert_eq!(d.name, "mem");
    assert!(matches!(d.kind, GenericResourceDescriptorKind::Sum { size: 64 }));
}

#[test]
fn test_new_sorts_by_name() {
    let names = |d: &ResourceDescriptor| d.generic.iter().map(|g| g.name.clone()).collect::<Vec<_>>();
    let a = ResourceDescriptor::new(
        cpu_descriptor_from_socket_size(1, 1),
        vec![
            GenericResourceDescriptor::sum("mem", 10),
            GenericResourceDescriptor::range("gpus", 0u32, 3u32),
            GenericResourceDescriptor::sum("Zeta", 1),
            GenericResourceDescriptor::sum("gpu", 2),
        ],
    );
    let b = ResourceDescriptor::new(
        cpu_descriptor_from_socket_size(1, 1),
        vec![
            GenericResourceDescriptor::sum("gpu", 2),
            GenericResourceDescriptor::sum("Zeta", 1),
            GenericResourceDescriptor::sum("mem", 10),
            GenericResourceDescriptor::range("gpus", 0u32, 3u32),
        ],
    );
    assert_eq!(names(&a), vec!["Zeta", "gpu", "gpus", "mem"]);
    assert_eq!(names(&a), names(&b));
    let sizes = |d: &ResourceDescriptor| d.generic.iter().map(|g| g.kind.size()).collect::<Vec<_>>();
    assert_eq!(sizes(&a), vec![1, 2, 4, 10]);
    assert_eq!(sizes(&a), sizes(&b));
    assert!(a.validate().is_ok());
}

#[test]
fn test_new_keeps_ties_in_given_order() {
    let d = ResourceDescriptor::new(
        cpu_descriptor_from_socket_size(1, 1),
        vec![
            GenericResourceDescriptor::sum("x", 1),
            GenericResourceDescriptor::sum("a", 5),
            GenericResourceDescriptor::sum("x", 2),
            GenericResourceDescriptor::sum("x", 3),
        ],
    );
    let sizes = d.generic.iter().map(|g| g.kind.size()).collect::<Vec<_>>();
    assert_eq!(sizes, vec![5, 1, 2, 3]);
}

#[test]
fn test_validate_number_of_cpus() {
    let d = ResourceDescriptor::new(Vec::new(), Vec::new());
    assert_eq!(message(d.validate()), "Invalid number of cpus");
    let d = ResourceDescriptor::new(vec![to_ids(vec![0]), Vec::new()], Vec::new());
    assert_eq!(message(d.validate()), "Invalid number of cpus");
    let d = ResourceDescriptor::new(cpu_descriptor_from_socket_size(2, 0), Vec::new());
    assert_eq!(message(d.validate()), "Invalid number of cpus");
}

#[test]
fn test_validate_duplicate_cpu() {
    let d = ResourceDescriptor::new(vec![to_ids(vec![0, 1]), to_ids(vec![2, 1])], Vec::new());
    let r = d.validate();
    assert!(matches!(r, Err(ModelError::GenericError(_))));
    assert_eq!(message(r), "Same CPU id in two sockets");
    let d = ResourceDescriptor::new(vec![to_ids(vec![5, 6, 5])], Vec::new());
    assert_eq!(message(d.validate()), "Same CPU id in two sockets");
}

#[test]
fn test_validate_duplicate_resource() {
    let d = ResourceDescriptor::new(
        cpu_descriptor_from_socket_size(2, 2),
        vec![
            GenericResourceDescriptor::sum("mem", 10),
            GenericResourceDescriptor::range("gpus", 0u32, 3u32),
            GenericResourceDescriptor::sum("mem", 20),
        ],
    );
    assert_eq!(message(d.validate()), "Same resource defined twice");
}

#[test]
fn test_validate_reports_first_broken_rule() {
    let twice = || {
        vec![GenericResourceDescriptor::sum("mem", 10), GenericResourceDescriptor::sum("mem", 10)]
    };
    let d = ResourceDescriptor::new(vec![to_ids(vec![1]), Vec::new(), to_ids(vec![1])], twice());
    assert_eq!(message(d.validate()), "Invalid number of cpus");
    let d = ResourceDescriptor::new(vec![to_ids(vec![1]), to_ids(vec![1])], twice());
    assert_eq!(message(d.validate()), "Same CPU id in two sockets");
}

#[test]
fn test_validate_unsorted_descriptor() {
    let d = ResourceDescriptor {
        cpus: cpu_descriptor_from_socket_size(1, 2),
        generic: vec![
            GenericResourceDescriptor::sum("b", 1),
            GenericResourceDescriptor::sum("a", 1),
            GenericResourceDescriptor::sum("b", 1),
        ],
    };
    assert_eq!(message(d.validate()), "Same resource defined twice");
}

#[test]
fn test_clone_keeps_descriptor() {
    let d = ResourceDescriptor::new(
        vec![to_ids(vec![3, 1]), to_ids(vec![2])],
        vec![
            GenericResourceDescriptor::sum("mem", 10),
            GenericResourceDescriptor::range("gpus", 1u32, 3u32),
            GenericResourceDescriptor {
                name: "fpga".to_string(),
                kind: GenericResourceDescriptorKind::List {
                    values: vec![GenericResourceIndex::new(7), GenericResourceIndex::new(5)],
                },
            },
        ],
    );
    let c = d.clone();
    assert_eq!(c.cpus, d.cpus);
    assert_eq!(c.full_describe(), "[3, 1], [2]");
    let text = |d: &ResourceDescriptor| {
        d.generic.iter().map(|g| format!("{}={}", g.name, g.kind.to_string())).collect::<Vec<_>>()
    };
    assert_eq!(text(&c), vec!["fpga=List(7,5)", "gpus=Range(1-3)", "mem=Sum(10)"]);
    assert_eq!(text(&c), text(&d));
}

#[test]
fn test_ids() {
    assert_eq!(CpuId::from(7), CpuId::new(7));
    assert_eq!(CpuId::new(7).as_num(), 7);
    assert_eq!(GenericResourceIndex::from(9).as_num(), 9);
    assert!(CpuId::new(1) < CpuId::new(2));
}

#[test]
fn test_error_text() {
    assert_eq!(ModelError::GenericError("a".to_string()).to_string(), "a");
    assert_eq!(ModelError::DeserializationError("b".to_string()).to_string(), "b");
}
