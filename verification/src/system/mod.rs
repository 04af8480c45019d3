//! The simulation systems, run in a fixed order once per tick.

pub use self::bounce::Bounce;
pub use self::delay::Delay;
pub use self::despawn::Despawn;
pub use self::input_handler::InputHandler;
pub use self::physics::Physics;
pub use self::sending::Sending;
pub use self::spawn::Spawn;

pub mod bounce;
pub mod delay;
pub mod despawn;
pub mod input_handler;
pub mod physics;
pub mod sending;
pub mod spawn;
