use kavi::descriptors::{
    create_descriptor_set_layouts, ConflictingDescriptor, DescriptorBinding, LayoutBinding, PoolSize,
    ShaderMetadata, ShaderRegistry,
};

const STORAGE_IMAGE: i32 = 3;
const STORAGE_BUFFER: i32 = 7;
const VERTEX: u32 = 0x1;
const FRAGMENT: u32 = 0x10;
const COMPUTE: u32 = 0x20;

fn binding(set: u32, binding: u32, kind: i32, count: u32) -> DescriptorBinding {
    DescriptorBinding { set, binding, kind, count }
}

fn shader(entry: &str, stage: u32, descriptors: Vec<DescriptorBinding>) -> ShaderMetadata {
    ShaderMetadata { entry: entry.to_string(), stage, descriptors }
}

fn compute_shader() -> ShaderMetadata {
    shader(
        "cs_with_font",
        COMPUTE,
        vec![
            binding(0, 0, STORAGE_IMAGE, 1),
            binding(0, 1, STORAGE_IMAGE, 1),
            binding(0, 2, STORAGE_BUFFER, 1),
        ],
    )
}

fn fragment_shader() -> ShaderMetadata {
    shader("main_fs", FRAGMENT, vec![binding(0, 0, STORAGE_IMAGE, 1)])
}

#[test]
fn merge_is_order_independent() {
    let ab = create_descriptor_set_layouts(&vec![compute_shader(), fragment_shader()]).unwrap();
    let ba = create_descriptor_set_layouts(&vec![fragment_shader(), compute_shader()]).unwrap();
    assert_eq!(ab.set_count, ba.set_count);
    assert_eq!(ab.bindings, ba.bindings);
    assert_eq!(ab.pool_sizes, ba.pool_sizes);
}

#[test]
fn merge_of_renderer_shaders() {
    let vs = shader("main_vs", VERTEX, vec![]);
    let l = create_descriptor_set_layouts(&vec![compute_shader(), vs, fragment_shader()]).unwrap();
    assert_eq!(l.set_count, 1);
    assert_eq!(
        l.bindings,
        vec![
            LayoutBinding { set: 0, binding: 0, kind: STORAGE_IMAGE, count: 1, stages: COMPUTE | FRAGMENT },
            LayoutBinding { set: 0, binding: 1, kind: STORAGE_IMAGE, count: 1, stages: COMPUTE },
            LayoutBinding { set: 0, binding: 2, kind: STORAGE_BUFFER, count: 1, stages: COMPUTE },
        ]
    );
    assert_eq!(
        l.pool_sizes,
        vec![
            PoolSize { kind: STORAGE_IMAGE, descriptor_count: 2 },
            PoolSize { kind: STORAGE_BUFFER, descriptor_count: 1 },
        ]
    );
}

#[test]
fn merge_rejects_different_kinds() {
    let a = shader("a", COMPUTE, vec![binding(1, 3, STORAGE_IMAGE, 1)]);
    let b = shader("b", FRAGMENT, vec![binding(1, 3, STORAGE_BUFFER, 1)]);
    assert_eq!(
        create_descriptor_set_layouts(&vec![a, b]).unwrap_err(),
        ConflictingDescriptor { set: 1, binding: 3 }
    );
}

#[test]
fn merge_rejects_different_counts() {
    let a = shader("a", COMPUTE, vec![binding(0, 0, STORAGE_IMAGE, 1)]);
    let b = shader("b", FRAGMENT, vec![binding(0, 0, STORAGE_IMAGE, 3)]);
    assert_eq!(
        create_descriptor_set_layouts(&vec![a, b]).unwrap_err(),
        ConflictingDescriptor { set: 0, binding: 0 }
    );
}

#[test]
fn merge_unions_stages_of_matching_bindings() {
    let a = shader("a", VERTEX, vec![binding(0, 4, STORAGE_BUFFER, 2)]);
    let b = shader("b", FRAGMENT, vec![binding(0, 4, STORAGE_BUFFER, 2)]);
    let l = create_descriptor_set_layouts(&vec![a, b]).unwrap();
    assert_eq!(l.bindings.len(), 1);
    assert_eq!(l.bindings[0].stages, VERTEX | FRAGMENT);
    assert_eq!(l.pool_sizes, vec![PoolSize { kind: STORAGE_BUFFER, descriptor_count: 2 }]);
}

#[test]
fn set_count_is_one_past_highest_set() {
    let a = shader("a", COMPUTE, vec![binding(2, 0, STORAGE_IMAGE, 1), binding(0, 5, STORAGE_IMAGE, 4)]);
    let l = create_descriptor_set_layouts(&vec![a]).unwrap();
    assert_eq!(l.set_count, 3);
    assert_eq!(l.bindings[0].set, 0);
    assert_eq!(l.bindings[1].set, 2);
    assert_eq!(l.pool_sizes, vec![PoolSize { kind: STORAGE_IMAGE, descriptor_count: 5 }]);
}

#[test]
fn no_shaders_give_one_empty_set() {
    let l = create_descriptor_set_layouts(&vec![]).unwrap();
    assert_eq!(l.set_count, 1);
    assert!(l.bindings.is_empty());
    assert!(l.pool_sizes.is_empty());
}

#[test]
fn registry_hands_out_handles_in_order() {
    let mut registry = ShaderRegistry::new();
    let cs = registry.register_shader(compute_shader());
    let fs = registry.register_shader(fragment_shader());
    assert_eq!(cs.0, 0);
    assert_eq!(fs.0, 1);
    assert_eq!(registry.len(), 2);
    assert_eq!(registry.shader(fs).entry, "main_fs");
    let l = registry.descriptor_set_layouts().unwrap();
    assert_eq!(l.bindings[0].stages, COMPUTE | FRAGMENT);
}
