use tiny_agent_trainer::model::{CodeGenerationModel, ModelArchitecture};

#[test]
fn test_model_creation() {
    let model =
        CodeGenerationModel::new(ModelArchitecture::Transformer, 10000, 512, 8, 6, None, None);
    assert_eq!(model.vocab_size, 10000);
    assert!(model.num_parameters() > 0);
}

#[test]
fn test_parameter_count_closed_form() {
    // vocab 10, width 4, 2 heads, 2 layers, feed-forward width 8
    let model = CodeGenerationModel::new(
        ModelArchitecture::Transformer,
        10,
        4,
        2,
        2,
        Some(8),
        Some(16),
    );
    // attention: 4*4*4 + 4*4 = 80; feed-forward: (4*8+8)+(8*4+4) = 76;
    // norm: 8; encoder block: 80+76+16 = 172; decoder block: 160+76+24 = 260;
    // embedding 40, output projection 40 + 10.
    assert_eq!(model.num_parameters(), 40 + 2 * (172 + 260) + 40 + 10);
}

#[test]
fn test_lstm_stub_owns_no_parameters() {
    let model = CodeGenerationModel::new(ModelArchitecture::LSTM, 1000, 512, 8, 6, None, None);
    assert_eq!(model.num_parameters(), 0);
}

#[test]
fn test_defaults_applied() {
    let model =
        CodeGenerationModel::new(ModelArchitecture::Transformer, 100, 8, 2, 1, None, None);
    assert_eq!(model.dim_feedforward, 2048);
    assert_eq!(model.max_seq_len, 512);
}

#[test]
fn test_architecture_from_name() {
    assert_eq!(
        ModelArchitecture::from_name("Transformer"),
        ModelArchitecture::Transformer
    );
    assert_eq!(ModelArchitecture::from_name("LSTM"), ModelArchitecture::LSTM);
    assert_eq!(
        ModelArchitecture::from_name("unheard-of"),
        ModelArchitecture::Transformer
    );
}

#[test]
fn test_sanitize_truncates_and_remaps() {
    let model =
        CodeGenerationModel::new(ModelArchitecture::Transformer, 10, 4, 2, 1, Some(8), Some(3));
    let ids = vec![5usize, 11, 2, 9];
    let clean = model.sanitize_ids(&ids);
    assert_eq!(clean, vec![5usize, 1, 2]);
}

#[test]
fn test_decoder_input_prepends_start() {
    let model =
        CodeGenerationModel::new(ModelArchitecture::Transformer, 10, 4, 2, 1, Some(8), Some(8));
    let ids = vec![5usize, 6];
    assert_eq!(model.decoder_input(&ids), vec![2usize, 5, 6]);
}

#[test]
fn test_look_ahead_mask_is_strictly_upper_triangular() {
    let model =
        CodeGenerationModel::new(ModelArchitecture::Transformer, 10, 4, 2, 1, Some(8), Some(8));
    let mask = model.look_ahead_mask(4);
    for i in 0..4 {
        for j in 0..4 {
            assert_eq!(mask[i][j], j > i, "at ({}, {})", i, j);
        }
    }
}

#[test]
fn test_padding_masks() {
    let model =
        CodeGenerationModel::new(ModelArchitecture::Transformer, 10, 4, 2, 1, Some(8), Some(8));
    let ids = vec![5usize, 0, 7];
    let own = model.self_padding_mask(&ids);
    for i in 0..3 {
        assert_eq!(own[i], vec![false, true, false]);
    }
    let cross = model.cross_padding_mask(2, &ids);
    assert_eq!(cross.len(), 2);
    for i in 0..2 {
        assert_eq!(cross[i], vec![false, true, false]);
    }
}

#[test]
fn test_combined_mask_suppresses_either() {
    let model =
        CodeGenerationModel::new(ModelArchitecture::Transformer, 10, 4, 2, 1, Some(8), Some(8));
    let ids = vec![5usize, 0];
    let pad = model.self_padding_mask(&ids);
    let ahead = model.look_ahead_mask(2);
    let both = model.combine_masks(&pad, &ahead);
    assert_eq!(both[0], vec![false, true]);
    assert_eq!(both[1], vec![false, true]);
}
