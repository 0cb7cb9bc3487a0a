//! Cellular automata on a fixed rectangular grid.
//!
//! A cellular automaton is a grid of cells in which every cell changes its
//! state according to the states of its neighbors. The module [`ca`] holds the
//! engine: the mapping between grid coordinates and buffer positions, the
//! neighborhood rules, and the double-buffered simulation itself.

pub mod ca;
