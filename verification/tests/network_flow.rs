//! Tests of network construction, randomization and forward propagation.

use nn_core::activation::Activation;
use nn_core::matrix::Matrix;
use nn_core::network::{NetError, Network, BIAS_MAX, BIAS_MIN, WEIGHT_MAX, WEIGHT_MIN};
use nanorand::WyRand;

fn mat(rows: usize, cols: usize, data: Vec<i64>) -> Matrix {
    assert_eq!(data.len(), rows * cols);
    Matrix { rows, cols, data }
}

#[test]
fn layer_new_has_zero_weights_and_bias() {
    let l = nn_core::layer::Layer::new(4, 3);
    assert_eq!((l.weights.rows, l.weights.cols), (3, 4));
    assert_eq!((l.bias.rows, l.bias.cols), (1, 4));
    assert!(l.weights.data.iter().all(|&x| x == 0));
    assert!(l.bias.data.iter().all(|&x| x == 0));
}

#[test]
fn network_shapes_are_consistent() {
    let net = Network::new(4, vec![5, 6], 2);
    assert_eq!(net.input_size, 4);
    assert_eq!(net.hidden_layers.len(), 2);
    assert_eq!(
        (net.hidden_layers[0].weights.rows, net.hidden_layers[0].weights.cols),
        (4, 5),
    );
    assert_eq!(
        (net.hidden_layers[1].weights.rows, net.hidden_layers[1].weights.cols),
        (5, 6),
    );
    assert_eq!((net.output.weights.rows, net.output.weights.cols), (6, 2));
    assert_eq!((net.hidden_layers[0].bias.rows, net.hidden_layers[0].bias.cols), (1, 5));
    assert_eq!((net.hidden_layers[1].bias.rows, net.hidden_layers[1].bias.cols), (1, 6));
    assert_eq!((net.output.bias.rows, net.output.bias.cols), (1, 2));
}

#[test]
fn network_new_starts_at_zero() {
    let net = Network::new(2, vec![3], 1);
    assert!(net.hidden_layers[0].weights.data.iter().all(|&x| x == 0));
    assert!(net.hidden_layers[0].bias.data.iter().all(|&x| x == 0));
    assert!(net.output.weights.data.iter().all(|&x| x == 0));
    assert!(net.output.bias.data.iter().all(|&x| x == 0));
}

#[test]
fn randomize_fills_default_ranges() {
    let mut net = Network::new(3, vec![4, 4], 2);
    let mut rng = WyRand::new_seed(5);
    net.randomize(&mut rng);
    for l in net.hidden_layers.iter().chain(std::iter::once(&net.output)) {
        assert!(l.weights.data.iter().all(|&x| WEIGHT_MIN <= x && x <= WEIGHT_MAX));
        assert!(l.bias.data.iter().all(|&x| BIAS_MIN <= x && x <= BIAS_MAX));
        assert_ne!(l.weights.data, vec![0; l.weights.data.len()]);
    }
}

#[test]
fn randomize_keeps_shapes() {
    let mut net = Network::new(4, vec![5, 6], 2);
    let mut rng = WyRand::new_seed(9);
    net.randomize(&mut rng);
    assert_eq!(
        (net.hidden_layers[0].weights.rows, net.hidden_layers[0].weights.cols),
        (4, 5),
    );
    assert_eq!(
        (net.hidden_layers[1].weights.rows, net.hidden_layers[1].weights.cols),
        (5, 6),
    );
    assert_eq!((net.output.weights.rows, net.output.weights.cols), (6, 2));
}

#[test]
fn end_to_end_propagation_is_deterministic() {
    let mut net = Network::new(2, vec![3], 1);
    let mut rng = WyRand::new_seed(42);
    net.randomize(&mut rng);
    // the input [0.50, -0.50] read at the hundredth scale
    let input = mat(1, 2, vec![50, -50]);
    let out1 = net.quick_infer(input.duplicate(), Activation::Relu).unwrap();
    assert_eq!((out1.rows, out1.cols), (1, 1));
    let out2 = net.quick_infer(input.duplicate(), Activation::Relu).unwrap();
    assert_eq!(out1.data, out2.data);
}

#[test]
fn input_size_mismatch_is_reported() {
    let mut net = Network::new(2, vec![3], 1);
    let mut rng = WyRand::new_seed(42);
    net.randomize(&mut rng);
    let wide = mat(1, 3, vec![1, 2, 3]);
    assert_eq!(net.quick_infer(wide, Activation::Relu).unwrap_err(), NetError::InputSizeMismatch);
    let tall = mat(2, 2, vec![1, 2, 3, 4]);
    assert_eq!(net.quick_infer(tall, Activation::Relu).unwrap_err(), NetError::InputSizeMismatch);
    let wide2 = mat(1, 3, vec![1, 2, 3]);
    assert_eq!(
        net.forward_propagate(&wide2, Activation::Relu).unwrap_err(),
        NetError::InputSizeMismatch,
    );
}

#[test]
fn arithmetic_overflow_is_reported() {
    let mut net = Network::new(1, vec![1], 1);
    net.hidden_layers[0].weights.data[0] = i64::MAX;
    let input = mat(1, 1, vec![2]);
    assert_eq!(
        net.quick_infer(input, Activation::Relu).unwrap_err(),
        NetError::ArithmeticOverflow,
    );
    let input2 = mat(1, 1, vec![2]);
    assert_eq!(
        net.forward_propagate(&input2, Activation::Relu).unwrap_err(),
        NetError::ArithmeticOverflow,
    );
}

#[test]
fn quick_infer_computes_the_known_pass() {
    // One hidden layer, identity activation, hand-set parameters:
    // values = [1, 2]; weights (2x2) = [[1, 2], [3, 4]]; bias = [10, 20]
    // hidden = [1*1 + 2*3 + 10, 1*2 + 2*4 + 20] = [17, 30]
    // output weights (2x1) = [[1], [-1]]; bias = [5]
    // output = [17 - 30 + 5] = [-8]
    let mut net = Network::new(2, vec![2], 1);
    net.hidden_layers[0].weights.data = vec![1, 2, 3, 4];
    net.hidden_layers[0].bias.data = vec![10, 20];
    net.output.weights.data = vec![1, -1];
    net.output.bias.data = vec![5];
    let out = net.quick_infer(mat(1, 2, vec![1, 2]), Activation::Identity).unwrap();
    assert_eq!(out.data, vec![-8]);
    // With the rectifier, the final -8 clamps to 0.
    let out_relu = net.quick_infer(mat(1, 2, vec![1, 2]), Activation::Relu).unwrap();
    assert_eq!(out_relu.data, vec![0]);
}

#[test]
fn forward_propagate_captures_every_stage() {
    let mut net = Network::new(2, vec![2], 1);
    net.hidden_layers[0].weights.data = vec![1, 2, 3, 4];
    net.hidden_layers[0].bias.data = vec![10, 20];
    net.output.weights.data = vec![1, -1];
    net.output.bias.data = vec![5];
    let input = mat(1, 2, vec![1, 2]);
    let st = net.forward_propagate(&input, Activation::Identity).unwrap();
    assert_eq!(st.input_neurons.data, vec![1, 2]);
    assert_eq!(st.hidden_layer_neurons.len(), 1);
    assert_eq!(st.hidden_layer_neurons[0].data, vec![17, 30]);
    assert_eq!((st.output_neurons.rows, st.output_neurons.cols), (1, 1));
    assert_eq!(st.output_neurons.data, vec![-8]);
    // The state agrees with the inference-only entry point.
    let out = net.quick_infer(input, Activation::Identity).unwrap();
    assert_eq!(st.output_neurons.data, out.data);
}

#[test]
fn network_state_new_packs_fields() {
    let st = nn_core::network::NetworkState::new(
        mat(1, 2, vec![1, 2]),
        vec![mat(1, 3, vec![4, 5, 6])],
        mat(1, 1, vec![9]),
    );
    assert_eq!(st.input_neurons.data, vec![1, 2]);
    assert_eq!(st.hidden_layer_neurons[0].data, vec![4, 5, 6]);
    assert_eq!(st.output_neurons.data, vec![9]);
}

#[test]
fn backpropagate_returns_weight_shaped_gradients() {
    let net = Network::new(4, vec![5, 6], 2);
    let input = mat(1, 4, vec![1, 2, 3, 4]);
    let st = net.forward_propagate(&input, Activation::Relu).unwrap();
    let grads = st.backpropagate(net);
    assert_eq!(grads.len(), 3);
    assert_eq!((grads[0].rows, grads[0].cols), (4, 5));
    assert_eq!((grads[1].rows, grads[1].cols), (5, 6));
    assert_eq!((grads[2].rows, grads[2].cols), (6, 2));
}
