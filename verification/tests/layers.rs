use svod_tensor::device::ScalarDType;
use svod_tensor::graph::Op;
use svod_tensor::layers::{
    BatchNorm2d, Conv2d, ConvSettings, ConvTranspose2d, Embedding, Fill, LayerNorm, RmsNorm,
};
use svod_tensor::realize::{RealizeStep, Tensor};

fn shape(tensor: &Tensor) -> Vec<usize> {
    tensor.uop.shape.as_ref().unwrap().to_vec()
}

fn fill(tensor: &Tensor) -> &Op {
    assert_eq!(tensor.uop.graph.nodes[1].op, Op::Contiguous);
    &tensor.uop.graph.nodes[0].op
}

fn parameter(dims: &[usize], kind: Fill) -> Tensor {
    Tensor::parameter(dims.to_vec(), ScalarDType::Float32, kind, &mut 1)
}

#[test]
fn parameters_are_computed_into_buffers() {
    let mut next_id = 10;
    let mut weight = Tensor::parameter(vec![2, 3], ScalarDType::Float16, Fill::Ones, &mut next_id);
    assert_eq!((weight.entry_id, weight.uop.id, next_id), (10, 11, 12));
    assert_eq!((shape(&weight), weight.uop.dtype), (vec![2, 3], ScalarDType::Float16));
    assert_eq!(weight.begin_realize(&mut next_id), RealizeStep::Prepare);
    assert_ne!(fill(&parameter(&[1], Fill::Ones)), fill(&parameter(&[1], Fill::Zeros)));
    assert_ne!(fill(&parameter(&[1], Fill::KaimingUniform)), fill(&parameter(&[1], Fill::Zeros)));
}

#[test]
fn convolutions_start_plain() {
    let layer = Conv2d::new(parameter(&[8, 3, 5, 7], Fill::Ones), None);
    assert_eq!(
        layer.settings(),
        ConvSettings {
            stride: (1, 1),
            padding: ((0, 0), (0, 0)),
            output_padding: (0, 0),
            dilation: (1, 1),
            groups: 1,
            acc_dtype: None,
        }
    );
    assert_eq!(layer.bias, None);
}

#[test]
fn convolutions_have_weights_of_their_dims() {
    let mut next_id = 1;
    let layer = Conv2d::with_dims(3, 8, (5, 7), true, ScalarDType::Float32, &mut next_id);
    assert_eq!((shape(&layer.weight), next_id), (vec![8, 3, 5, 7], 5));
    assert_eq!(fill(&layer.weight), fill(&parameter(&[1], Fill::KaimingUniform)));
    let bias = layer.bias.as_ref().unwrap();
    assert_eq!((shape(bias), fill(bias)), (vec![8], fill(&parameter(&[1], Fill::Zeros))));

    let transposed = ConvTranspose2d::with_dims(3, 8, (5, 7), false, ScalarDType::Float32, &mut next_id);
    assert_eq!((shape(&transposed.weight), next_id), (vec![3, 8, 5, 7], 7), "input channels lead");
    assert_eq!(transposed.bias, None);
    let biased = ConvTranspose2d::with_dims(3, 8, (5, 7), true, ScalarDType::Float32, &mut next_id);
    assert_eq!(shape(biased.bias.as_ref().unwrap()), vec![8]);
}

#[test]
fn builders_set_what_they_name() {
    let layer = Conv2d::new(parameter(&[1, 1, 1, 1], Fill::Ones), None)
        .with_stride((2, 3))
        .with_padding(((1, -1), (0, 2)))
        .with_dilation((4, 5))
        .with_groups(6)
        .with_acc_dtype(ScalarDType::Float64);
    assert_eq!(
        layer.settings(),
        ConvSettings {
            stride: (2, 3),
            padding: ((1, -1), (0, 2)),
            output_padding: (0, 0),
            dilation: (4, 5),
            groups: 6,
            acc_dtype: Some(ScalarDType::Float64),
        }
    );
    let base = || ConvTranspose2d::new(parameter(&[1, 1, 1, 1], Fill::Ones), None);
    let forwards = base()
        .with_stride((2, 3))
        .with_padding(((1, -1), (0, 2)))
        .with_output_padding((7, 8))
        .with_dilation((4, 5))
        .with_groups(6);
    let backwards = base()
        .with_groups(6)
        .with_dilation((4, 5))
        .with_output_padding((7, 8))
        .with_padding(((1, -1), (0, 2)))
        .with_stride((2, 3));
    assert_eq!(forwards, backwards);
    assert_eq!((forwards.settings().output_padding, forwards.settings().acc_dtype), ((7, 8), None));
    assert_eq!(base().with_groups(2).with_groups(3).groups, 3);
}

#[test]
fn embeddings_are_tables() {
    let layer = Embedding::with_dims(100, 16, ScalarDType::Float32, &mut 1);
    assert_eq!(shape(&layer.weight), vec![100, 16]);
    assert_eq!(fill(&layer.weight), fill(&parameter(&[1], Fill::KaimingUniform)));
    assert_eq!(Embedding::new(parameter(&[3, 2], Fill::Ones)).weight, parameter(&[3, 2], Fill::Ones));
}

#[test]
fn normalizations_start_as_the_identity() {
    let eps = 1e-5f64.to_bits();
    let (ones, zeros) = (parameter(&[4], Fill::Ones), parameter(&[4], Fill::Zeros));
    let mut next_id = 1;
    let batch = BatchNorm2d::with_dims(4, eps, ScalarDType::Float32, &mut next_id);
    assert_eq!(next_id, 9);
    for (tensor, like) in [
        (&batch.weight, &ones),
        (&batch.bias, &zeros),
        (&batch.running_mean, &zeros),
        (&batch.running_var, &ones),
    ] {
        assert_eq!((shape(tensor), fill(tensor)), (vec![4], fill(like)));
    }
    assert_eq!(f64::from_bits(batch.eps_bits), 1e-5);

    let layer = LayerNorm::with_dims(4, true, eps, ScalarDType::Float32, &mut next_id);
    assert_eq!((fill(&layer.weight), layer.axis), (fill(&ones), -1));
    assert_eq!(fill(layer.bias.as_ref().unwrap()), fill(&zeros));
    assert_eq!(layer.with_axis(-2).axis, -2);
    assert_eq!(LayerNorm::with_dims(4, false, eps, ScalarDType::Float32, &mut next_id).bias, None);

    let rms = RmsNorm::with_dims(4, eps, ScalarDType::Float32, &mut next_id);
    assert_eq!((fill(&rms.weight), rms.eps_bits), (fill(&ones), eps));
    assert_eq!(RmsNorm::new(parameter(&[4], Fill::Ones), 7).eps_bits, 7);
    assert_eq!(next_id, 17);
}
