//! Forward-mode automatic differentiation over exact integer arithmetic,
//! fixed-size vectors and matrices generic over their entries, and a
//! gradient-descent driver.

pub mod lineararith;
pub mod partial_dual;
pub mod optimizable;
