pub mod assets;
pub mod config;
pub mod console;
pub mod decode;
pub mod desktop;
pub mod gesture;
pub mod pet;
pub mod render;
pub mod scene;
pub mod text;

pub use assets::{AnimationId, AnimationMap, AnimationSpec, AssetManifest, HitZone, Rect, SpriteSheet};
pub use config::AppConfig;
pub use gesture::{GestureEvent, GestureTracker};
pub use pet::{Bounds, HeartParticle, PetBrain, PetMood, PetSnapshot};
pub use render::Surface;
