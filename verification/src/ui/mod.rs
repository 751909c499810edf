pub mod layers;
pub mod widgets;
pub mod panels;
