use orbistoun_gpu::pipeline::{MeshPrimitive, mesh_primitive_of, primitive_salt};
use orbistoun_gpu::registers::PrimitiveTopology;

#[test]
fn a_topology_maps_to_its_primitive_or_is_refused_by_name() {
    assert_eq!(mesh_primitive_of(PrimitiveTopology::PointList), Ok(MeshPrimitive::Points));
    assert_eq!(mesh_primitive_of(PrimitiveTopology::LineStrip), Ok(MeshPrimitive::Lines));
    assert_eq!(mesh_primitive_of(PrimitiveTopology::TriangleStrip), Ok(MeshPrimitive::Triangles));

    let rect = mesh_primitive_of(PrimitiveTopology::RectangleList).unwrap_err();
    assert!(
        rect.contains("rectangle list") && rect.contains("refused"),
        "a rectangle list is refused by name, not drawn as a triangle: {rect}"
    );
    let other = mesh_primitive_of(PrimitiveTopology::Other(9)).unwrap_err();
    assert!(
        other.contains("VGT_GS_OUTPRIM_TYPE 9"),
        "an unmeasured value is refused by its raw field: {other}"
    );
}

#[test]
fn a_primitive_carries_its_index_count_and_a_distinct_cache_salt() {
    assert_eq!(MeshPrimitive::Points.indices(), 1);
    assert_eq!(MeshPrimitive::Lines.indices(), 2);
    assert_eq!(MeshPrimitive::Triangles.indices(), 3);

    let salts = [
        primitive_salt(MeshPrimitive::Points),
        primitive_salt(MeshPrimitive::Lines),
        primitive_salt(MeshPrimitive::Triangles),
    ];
    assert!(
        salts[0] != salts[1] && salts[1] != salts[2] && salts[0] != salts[2],
        "each primitive salts the cache key differently: {salts:?}"
    );
}

#[test]
fn a_refusal_reads_as_one_sentence_naming_the_topology() {
    let rect = mesh_primitive_of(PrimitiveTopology::RectangleList).unwrap_err();
    assert_eq!(
        rect,
        "the draw's primitive topology is rectangle list, which has no mesh-primitive shape to \
         assemble - a point, line or triangle is emitted, and this is refused rather than drawn \
         as one of them"
    );
    assert_eq!(primitive_salt(MeshPrimitive::Triangles), 0);
    assert_eq!(primitive_salt(MeshPrimitive::Points), 0x504f_494e_0000_0001);
}
