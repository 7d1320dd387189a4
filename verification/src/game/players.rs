pub mod computer;
pub mod gameplayer;

pub use computer::Computer;
pub use gameplayer::GamePlayer;
