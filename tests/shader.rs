use kavi::shader::{shader_words, InvalidShaderCode, SPIRV_MAGIC};

#[test]
fn little_endian_module_decodes() {
    let code = vec![0x03, 0x02, 0x23, 0x07, 0x00, 0x00, 0x01, 0x00];
    assert_eq!(shader_words(&code), Ok(vec![SPIRV_MAGIC, 0x0001_0000]));
}

#[test]
fn big_endian_module_is_swapped() {
    let code = vec![0x07, 0x23, 0x02, 0x03, 0x00, 0x01, 0x00, 0x00];
    assert_eq!(shader_words(&code), Ok(vec![SPIRV_MAGIC, 0x0001_0000]));
}

#[test]
fn non_spirv_is_rejected() {
    assert_eq!(shader_words(&vec![]), Err(InvalidShaderCode));
    assert_eq!(shader_words(&vec![0x03, 0x02, 0x23, 0x07, 0x00]), Err(InvalidShaderCode));
    assert_eq!(shader_words(&vec![0x01, 0x02, 0x03, 0x04]), Err(InvalidShaderCode));
}
