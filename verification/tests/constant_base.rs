use orbistoun_gpu::pipeline::{constant_address_base, constant_of, scalar_destination_span, ShaderInstruction, ShaderOperand};

fn op(mnemonic: &str, operands: &[ShaderOperand]) -> ShaderInstruction {
    ShaderInstruction { mnemonic: Some(mnemonic.as_bytes().to_vec()), operands: operands.to_vec() }
}

use ShaderOperand::{Integer, Literal, Other, Scalar};

/// The cube's vertex program: `s2` and `s3` moved once each, then added carry-chained to every
/// vertex's offset.
fn cube_program() -> Vec<ShaderInstruction> {
    vec![
        op("s_mov_b32", &[Scalar(2), Literal(0x0090_0000)]),
        op("s_mov_b32", &[Scalar(3), Integer(2)]),
        op("s_load_dwordx4", &[Scalar(8), Scalar(0), Integer(0)]),
        op("v_add_co_u32", &[Other, Scalar(106), Scalar(2), Other]),
        op("v_add_co_ci_u32", &[Other, Scalar(106), Scalar(3), Other, Scalar(106)]),
        op("s_endpgm", &[]),
    ]
}

/// The base a live vertex program forms is read out of its own words: `0x0090_0000` in `s2` and
/// `0x2` in `s3`, added carry-chained, put its buffer at `0x2_0090_0000`. The same program with
/// `s2` also written by a second move names no base rather than the first value.
#[test]
fn the_constant_base_a_vertex_program_forms_is_found_and_a_reassigned_one_is_not() {
    assert_eq!(constant_address_base(&cube_program()), Some(0x2_0090_0000));

    let mut reassigned = cube_program();
    reassigned.insert(2, op("s_mov_b32", &[Scalar(2), Literal(0x1234)]));
    assert_eq!(constant_address_base(&reassigned), None);
}

/// A load whose destination range covers a register makes it no constant; a compare that names it
/// first does not write it.
#[test]
fn a_load_over_a_register_makes_it_no_constant_and_a_compare_does_not() {
    let mut loaded = cube_program();
    loaded.insert(2, op("s_load_dwordx4", &[Scalar(0), Scalar(4), Integer(0)]));
    assert_eq!(constant_of(&loaded, 3), None, "s[0:3] covers s3");
    assert_eq!(constant_address_base(&loaded), None);

    let mut compared = cube_program();
    compared.insert(2, op("s_cmp_eq_u32", &[Scalar(2), Integer(0)]));
    assert_eq!(constant_address_base(&compared), Some(0x2_0090_0000));
}

/// Without the carry-chained high half there is no 64-bit base.
#[test]
fn an_add_without_its_carry_names_no_base() {
    let mut program = cube_program();
    program.remove(4);
    assert_eq!(constant_address_base(&program), None);
    assert_eq!(constant_of(&program, 2), Some(0x0090_0000), "s2 is still a constant");
    assert_eq!(constant_of(&program, 7), None, "never written");
}

#[test]
fn a_destination_spans_the_registers_its_width_names() {
    assert_eq!(scalar_destination_span(b"s_load_dwordx4"), 4);
    assert_eq!(scalar_destination_span(b"s_buffer_load_dwordx16"), 16);
    assert_eq!(scalar_destination_span(b"s_mov_b64"), 2);
    assert_eq!(scalar_destination_span(b"s_add_u32"), 1);
    assert_eq!(scalar_destination_span(b"s_load_dwordx2_bad"), 1, "no count after the last dwordx");
}
