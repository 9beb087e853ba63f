use tensor_pcs::tensor_pcs::{CodeParams, Error, PackingLayout, TensorPCS};

fn reed_solomon(log_dim: usize, log_inv_rate: usize, n_test_queries: usize) -> CodeParams {
    CodeParams {
        len: 1 << (log_dim + log_inv_rate),
        dim: 1 << log_dim,
        dim_bits: log_dim,
        n_test_queries,
    }
}

fn layout(base_width: usize, intermediate_width: usize, intermediate_degree: usize) -> PackingLayout {
    PackingLayout {
        base_width,
        intermediate_width,
        extension_width: 1,
        intermediate_degree,
        extension_degree: 16,
        base_bits: 128 / intermediate_degree,
    }
}

#[test]
fn basic_scheme_dimensions() {
    // packed 16 x 8-bit base and intermediate, 1 x 128-bit extension
    let pcs = TensorPCS::new(4, reed_solomon(5, 2, 12), (), layout(16, 16, 1)).ok().unwrap();
    assert_eq!(pcs.log_rows(), 4);
    assert_eq!(pcs.log_cols(), 5);
    assert_eq!(pcs.n_vars(), 9);
}

#[test]
fn block_scheme_dimensions() {
    // packed 128 x 1-bit base, packed 16 x 8-bit intermediate
    let pcs = TensorPCS::new(8, reed_solomon(5, 2, 12), (), layout(128, 16, 8)).ok().unwrap();
    assert_eq!(pcs.log_cols(), 8);
    assert_eq!(pcs.n_vars(), 16);
}

#[test]
fn construction_errors() {
    let odd = CodeParams { len: 96, dim: 32, dim_bits: 5, n_test_queries: 12 };
    assert_eq!(
        TensorPCS::new(4, odd, (), layout(16, 16, 1)).err(),
        Some(Error::CodeLengthPowerOfTwoRequired)
    );
    assert_eq!(
        TensorPCS::new(4, reed_solomon(5, 2, 12), (), layout(16, 16, 3)).err(),
        Some(Error::ExtensionDegreePowerOfTwoRequired)
    );
    assert_eq!(
        TensorPCS::new(2, reed_solomon(5, 2, 12), (), layout(16, 16, 1)).err(),
        Some(Error::PackingWidthMustDivideNumberOfRows)
    );
    assert_eq!(
        TensorPCS::new(4, reed_solomon(3, 2, 12), (), layout(16, 16, 1)).err(),
        Some(Error::PackingWidthMustDivideCodeDimension)
    );
}
