//! Reverse-mode automatic differentiation over scalar values.
//!
//! A [`graph::Graph`] is an arena of computation nodes addressed by index.
//! Applying an operation evaluates it at once and appends a node; running
//! the backward pass from a node accumulates, into every node it depends
//! on, the derivative of that node with respect to it.
//!
//! - [`scalar`]: the numbers a graph computes with, as a trait.
//! - [`op`]: the kinds of node, with their forward and backward formulas.
//! - [`graph`]: the arena, its handles, and the backward pass.
//! - [`order`]: the order in which a backward pass walks the graph.
//! - [`pass`]: what a backward pass does to the gradients.
//! - [`chain`]: why that order is the right one.
//! - [`softmax`]: softmax and cross-entropy, built from the catalog.
//! - [`syntax`]: a second handle type.
//! - [`init`], [`model`], [`nn`], [`nn_raw`]: neurons, layers, networks.
//! - [`optim`]: gradient descent.
pub mod scalar;
pub mod op;
pub mod graph;
pub mod order;
pub mod pass;
pub mod chain;
pub mod softmax;
pub mod syntax;
pub mod init;
pub mod model;
pub mod nn;
pub mod nn_raw;
pub mod optim;
