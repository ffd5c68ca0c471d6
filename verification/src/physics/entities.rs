//! Bodies: what the simulation knows of each, and the two shapes.

use vstd::prelude::*;
use crate::physics::constants::CIRCLE_SIDES;
use crate::physics::geometry::{
    compute_normals, lemma_circle_fault, lemma_rectangle_fault, normals_spec,
    rectangle_corner_ring, rectangle_corners, regular_polygon, regular_polygon_corners,
    ring_fault, well_formed_ring, GeometryError,
};
use crate::physics::scalar::{magnitude, Scalar, SCALE};
use crate::physics::vector::{nearly_unit, vector_sum, views, Vec2, Vector};
use crate::rendering::scene::Scene;

verus! {

/// The state of a body that the simulation reads and moves.
pub struct PhysicsData {
    /// The centroid, in world coordinates.
    pub position: Vec2,
    /// The linear velocity, in world coordinates.
    pub velocity: Vec2,
    /// The boundary as a ring of corners, relative to the centroid.
    pub vertices: Vec<Vec2>,
    /// One unit normal for each edge of the ring.
    pub axes: Vec<Vec2>,
    /// A stationary body acts on others and is never moved itself.
    pub stationary: bool,
    /// The mass.
    pub mass: Scalar,
}

/// The corners `vertices`, moved by `position`.
pub open spec fn world_vertices(vertices: Seq<Vector>, position: Vector) -> Seq<Vector> {
    Seq::new(vertices.len(), |i: int| vector_sum(vertices[i], position))
}

/// What a body starts with: where it is, how it moves, its size and mass,
/// and whether it is stationary.
pub struct KinematicData {
    pub position: Vec2,
    pub velocity: Vec2,
    /// The radius of a disc; a rectangle has its width and height instead.
    pub radius: Scalar,
    pub mass: Scalar,
    pub stationary: bool,
}

impl KinematicData {
    /// The starting values of a body that moves.
    pub fn new(position: Vec2, velocity: Vec2, radius: Scalar, mass: Scalar) -> (r: Self)
        ensures
            r.position == position,
            r.velocity == velocity,
            r.radius == radius,
            r.mass == mass,
            !r.stationary,
    {
        Self { position, velocity, radius, mass, stationary: false }
    }
}

impl PhysicsData {
    /// Whether the shape is a polygon with the normals of its edges, and
    /// the mass is not negative.
    pub open spec fn well_formed(&self) -> bool {
        &&& well_formed_ring(views(self.vertices@))
        &&& self.normals() == normals_spec(views(self.vertices@))
        &&& forall|i: int| 0 <= i < self.axes@.len() ==> nearly_unit(#[trigger] self.axes@[i]@)
        &&& self.mass@ >= 0
    }

    /// A body of unit mass that moves, at `position` with `velocity`, and
    /// without a shape yet.
    pub fn new(position: Vec2, velocity: Vec2) -> (r: PhysicsData)
        ensures
            r.position == position,
            r.velocity == velocity,
            r.vertices@.len() == 0,
            r.axes@.len() == 0,
            !r.stationary,
            r.mass@ == SCALE,
    {
        PhysicsData {
            position,
            velocity,
            vertices: Vec::new(),
            axes: Vec::new(),
            stationary: false,
            mass: Scalar::one(),
        }
    }

    /// Sets the axes to the normals of the edges of the shape. Where the
    /// shape has a fault, the axes stay as they are and the fault is
    /// returned. Nothing else changes.
    pub fn set_axes(&mut self) -> (r: Result<(), GeometryError>)
        ensures
            final(self).position == old(self).position,
            final(self).velocity == old(self).velocity,
            final(self).vertices == old(self).vertices,
            final(self).stationary == old(self).stationary,
            final(self).mass == old(self).mass,
            match r {
                Ok(()) => {
                    &&& ring_fault(views(old(self).vertices@)) is None
                    &&& final(self).normals() == normals_spec(views(old(self).vertices@))
                    &&& final(self).mass@ >= 0 ==> final(self).well_formed()
                },
                Err(fault) => {
                    &&& ring_fault(views(old(self).vertices@)) == Some(fault)
                    &&& final(self).axes == old(self).axes
                },
            },
    {
        match compute_normals(&self.vertices) {
            Ok(normals) => {
                self.axes = normals;
                Ok(())
            },
            Err(fault) => Err(fault),
        }
    }

    /// The corners in world coordinates.
    pub open spec fn world(&self) -> Seq<Vector> {
        world_vertices(views(self.vertices@), self.position@)
    }

    /// The edge normals.
    pub open spec fn normals(&self) -> Seq<Vector> {
        views(self.axes@)
    }
}

/// A colour with eight bits for each of red, green, blue and opacity.
#[derive(Clone, Copy, Debug, PartialEq, Eq, Structural)]
pub struct Rgba {
    pub red: u8,
    pub green: u8,
    pub blue: u8,
    pub alpha: u8,
}

/// What a renderer keeps of a body: its colour, and the handle of the
/// element that draws it once there is one.
#[derive(Clone, Copy, Debug, PartialEq, Eq, Structural)]
pub struct BevyData {
    pub color: Rgba,
    pub entity: Option<u64>,
}

impl BevyData {
    /// The default colour, and no handle yet.
    pub fn new() -> (r: BevyData)
        ensures
            r.color == (Rgba { red: 30, green: 61, blue: 111, alpha: 255 }),
            r.entity is None,
    {
        BevyData { color: Rgba { red: 30, green: 61, blue: 111, alpha: 255 }, entity: None }
    }
}

/// A disc, bounded by a regular polygon.
pub struct BallEntity {
    pub physics: PhysicsData,
    pub bevy: BevyData,
    pub radius: Scalar,
}

/// A rectangle with sides along the coordinate axes.
pub struct RectangleEntity {
    pub physics: PhysicsData,
    pub bevy: BevyData,
    pub width: Scalar,
    pub height: Scalar,
}

impl BallEntity {
    /// Whether `self` is the disc of the given radius as `new` builds it.
    pub open spec fn is_new(&self, position: Vec2, velocity: Vec2, radius: Scalar) -> bool {
        &&& self.radius == radius
        &&& self.bevy == (BevyData {
            color: Rgba { red: 30, green: 61, blue: 111, alpha: 255 },
            entity: None,
        })
        &&& self.physics.position == position
        &&& self.physics.velocity == velocity
        &&& !self.physics.stationary
        &&& self.physics.mass@ == SCALE
        &&& views(self.physics.vertices@) == regular_polygon(radius@, CIRCLE_SIDES as int)
        &&& self.physics.vertices@.len() == CIRCLE_SIDES
        &&& self.physics.axes@.len() == CIRCLE_SIDES
        &&& self.physics.well_formed()
    }

    /// The fault of the polygon that stands for a circle of the given
    /// radius: corners fall together where the radius is less than two raw
    /// steps.
    pub open spec fn fault_of(radius: int) -> Option<GeometryError> {
        if radius == 0 {
            Some(GeometryError::DegenerateEdge { index: 0 })
        } else if magnitude(radius) == 1 {
            Some(GeometryError::DegenerateEdge { index: 1 })
        } else {
            None
        }
    }

    /// A disc of radius `radius` and unit mass at `position`, moving with
    /// `velocity`. Its shape is the regular polygon of sixteen corners.
    /// Every radius of two raw steps or more, to either side, gives a disc;
    /// a smaller one gives the fault of its polygon.
    pub fn new(position: Vec2, velocity: Vec2, radius: Scalar) -> (r: Result<
        BallEntity,
        GeometryError,
    >)
        ensures
            match r {
                Ok(ball) => {
                    &&& magnitude(radius@) >= 2
                    &&& ball.is_new(position, velocity, radius)
                },
                Err(fault) => BallEntity::fault_of(radius@) == Some(fault),
            },
    {
        proof {
            lemma_circle_fault(radius@);
        }
        let mut ball = BallEntity {
            physics: PhysicsData::new(position, velocity),
            bevy: BevyData::new(),
            radius,
        };
        ball.set_vertices(CIRCLE_SIDES);
        match ball.physics.set_axes() {
            Ok(()) => {
                assert(views(ball.physics.axes@).len() == views(ball.physics.vertices@).len());
                Ok(ball)
            },
            Err(fault) => Err(fault),
        }
    }

    /// Builds the disc that `kinematic_data` describes, with its mass and
    /// whether it is stationary, gives it the handle `entity` of the element
    /// that draws it, and adds it to the scene. A disc whose polygon has a
    /// fault is not added.
    pub fn spawn(scene: &mut Scene, entity: u64, kinematic_data: KinematicData) -> (r: Result<
        (),
        GeometryError,
    >)
        ensures
            match r {
                Ok(()) => {
                    &&& magnitude(kinematic_data.radius@) >= 2
                    &&& final(scene).entities@.len() == old(scene).entities@.len() + 1
                    &&& final(scene).entities@.drop_last() == old(scene).entities@
                    &&& final(scene).entities@.last() matches PhysicsEntity::Ball(ball)
                    &&& ball.radius == kinematic_data.radius
                    &&& ball.bevy == (BevyData {
                        color: Rgba { red: 30, green: 61, blue: 111, alpha: 255 },
                        entity: Some(entity),
                    })
                    &&& ball.physics.position == kinematic_data.position
                    &&& ball.physics.velocity == kinematic_data.velocity
                    &&& ball.physics.stationary == kinematic_data.stationary
                    &&& ball.physics.mass == kinematic_data.mass
                    &&& views(ball.physics.vertices@) == regular_polygon(
                        kinematic_data.radius@,
                        CIRCLE_SIDES as int,
                    )
                    &&& ball.physics.normals() == normals_spec(views(ball.physics.vertices@))
                    &&& kinematic_data.mass@ >= 0 ==> ball.physics.well_formed()
                },
                Err(fault) => {
                    &&& final(scene).entities@ == old(scene).entities@
                    &&& BallEntity::fault_of(kinematic_data.radius@) == Some(fault)
                },
            },
    {
        match BallEntity::new(
            kinematic_data.position,
            kinematic_data.velocity,
            kinematic_data.radius,
        ) {
            Ok(mut ball) => {
                ball.physics.mass = kinematic_data.mass;
                ball.physics.stationary = kinematic_data.stationary;
                ball.bevy.entity = Some(entity);
                scene.entities.push(PhysicsEntity::Ball(ball));
                assert(final(scene).entities@.drop_last() =~= old(scene).entities@);
                Ok(())
            },
            Err(fault) => Err(fault),
        }
    }

    /// Sets the corners to those of the regular polygon with `n` corners on
    /// the circle of the disc's radius; to none where `n` is not positive.
    /// Nothing else changes.
    pub fn set_vertices(&mut self, n: i64)
        ensures
            views(final(self).physics.vertices@) == regular_polygon(old(self).radius@, n as int),
            n >= 0 ==> final(self).physics.vertices@.len() == n,
            final(self).radius == old(self).radius,
            final(self).bevy == old(self).bevy,
            final(self).physics.position == old(self).physics.position,
            final(self).physics.velocity == old(self).physics.velocity,
            final(self).physics.axes == old(self).physics.axes,
            final(self).physics.stationary == old(self).physics.stationary,
            final(self).physics.mass == old(self).physics.mass,
    {
        self.physics.vertices = regular_polygon_corners(self.radius, n);
    }
}

impl RectangleEntity {
    /// Whether `self` is the rectangle of the given size as `new` builds it.
    pub open spec fn is_new(
        &self,
        position: Vec2,
        velocity: Vec2,
        width: Scalar,
        height: Scalar,
    ) -> bool {
        &&& self.width == width
        &&& self.height == height
        &&& self.bevy == (BevyData {
            color: Rgba { red: 30, green: 61, blue: 111, alpha: 255 },
            entity: None,
        })
        &&& self.physics.position == position
        &&& self.physics.velocity == velocity
        &&& !self.physics.stationary
        &&& self.physics.mass@ == SCALE
        &&& views(self.physics.vertices@) == rectangle_corners(width@, height@)
        &&& self.physics.axes@.len() == 4
        &&& self.physics.well_formed()
    }

    /// The fault of the rectangle of the given width and height: corners
    /// fall together where half the width or half the height rounds to
    /// nothing.
    pub open spec fn fault_of(width: int, height: int) -> Option<GeometryError> {
        if magnitude(width) < 2 {
            Some(GeometryError::DegenerateEdge { index: 0 })
        } else if magnitude(height) < 2 {
            Some(GeometryError::DegenerateEdge { index: 1 })
        } else {
            None
        }
    }

    /// A rectangle of the given width and height and of unit mass, with its
    /// centre at `position`, moving with `velocity`. Every width and height
    /// of two raw steps or more, to either side, give a rectangle; smaller
    /// ones give the fault of the ring of corners.
    pub fn new(position: Vec2, velocity: Vec2, width: Scalar, height: Scalar) -> (r: Result<
        RectangleEntity,
        GeometryError,
    >)
        ensures
            match r {
                Ok(rect) => {
                    &&& magnitude(width@) >= 2
                    &&& magnitude(height@) >= 2
                    &&& rect.is_new(position, velocity, width, height)
                },
                Err(fault) => RectangleEntity::fault_of(width@, height@) == Some(fault),
            },
    {
        proof {
            lemma_rectangle_fault(width@, height@);
        }
        let mut rect = RectangleEntity {
            physics: PhysicsData::new(position, velocity),
            bevy: BevyData::new(),
            width,
            height,
        };
        rect.set_vertices();
        match rect.physics.set_axes() {
            Ok(()) => {
                assert(views(rect.physics.axes@).len() == views(rect.physics.vertices@).len());
                Ok(rect)
            },
            Err(fault) => Err(fault),
        }
    }

    /// Builds the rectangle of the given width and height at the place and
    /// with the velocity and mass that `kinematic_data` describes, stationary
    /// where it says so, gives it the handle `entity` of the element that
    /// draws it, and adds it to the scene. A rectangle whose ring of corners
    /// has a fault is not added.
    pub fn spawn(
        scene: &mut Scene,
        entity: u64,
        kinematic_data: KinematicData,
        width: Scalar,
        height: Scalar,
    ) -> (r: Result<(), GeometryError>)
        ensures
            match r {
                Ok(()) => {
                    &&& magnitude(width@) >= 2
                    &&& magnitude(height@) >= 2
                    &&& final(scene).entities@.len() == old(scene).entities@.len() + 1
                    &&& final(scene).entities@.drop_last() == old(scene).entities@
                    &&& final(scene).entities@.last() matches PhysicsEntity::Rectangle(rect)
                    &&& rect.width == width
                    &&& rect.height == height
                    &&& rect.bevy == (BevyData {
                        color: Rgba { red: 30, green: 61, blue: 111, alpha: 255 },
                        entity: Some(entity),
                    })
                    &&& rect.physics.position == kinematic_data.position
                    &&& rect.physics.velocity == kinematic_data.velocity
                    &&& rect.physics.stationary == kinematic_data.stationary
                    &&& rect.physics.mass == kinematic_data.mass
                    &&& views(rect.physics.vertices@) == rectangle_corners(width@, height@)
                    &&& rect.physics.normals() == normals_spec(views(rect.physics.vertices@))
                    &&& kinematic_data.mass@ >= 0 ==> rect.physics.well_formed()
                },
                Err(fault) => {
                    &&& final(scene).entities@ == old(scene).entities@
                    &&& RectangleEntity::fault_of(width@, height@) == Some(fault)
                },
            },
    {
        match RectangleEntity::new(
            kinematic_data.position,
            kinematic_data.velocity,
            width,
            height,
        ) {
            Ok(mut rect) => {
                rect.physics.mass = kinematic_data.mass;
                rect.physics.stationary = kinematic_data.stationary;
                rect.bevy.entity = Some(entity);
                scene.entities.push(PhysicsEntity::Rectangle(rect));
                assert(final(scene).entities@.drop_last() =~= old(scene).entities@);
                Ok(())
            },
            Err(fault) => Err(fault),
        }
    }

    /// Sets the corners to those of the rectangle: top right, top left,
    /// bottom left, bottom right. Nothing else changes.
    pub fn set_vertices(&mut self)
        ensures
            views(final(self).physics.vertices@) == rectangle_corners(
                old(self).width@,
                old(self).height@,
            ),
            final(self).physics.vertices@.len() == 4,
            final(self).width == old(self).width,
            final(self).height == old(self).height,
            final(self).bevy == old(self).bevy,
            final(self).physics.position == old(self).physics.position,
            final(self).physics.velocity == old(self).physics.velocity,
            final(self).physics.axes == old(self).physics.axes,
            final(self).physics.stationary == old(self).physics.stationary,
            final(self).physics.mass == old(self).physics.mass,
    {
        self.physics.vertices = rectangle_corner_ring(self.width, self.height);
        assert(views(self.physics.vertices@).len() == 4);
    }
}

/// A body of either shape.
pub enum PhysicsEntity {
    Ball(BallEntity),
    Rectangle(RectangleEntity),
}

impl PhysicsEntity {
    /// The physical state of the body.
    pub open spec fn data(&self) -> PhysicsData {
        match self {
            PhysicsEntity::Ball(ball) => ball.physics,
            PhysicsEntity::Rectangle(rect) => rect.physics,
        }
    }

    /// What the renderer keeps of the body.
    pub open spec fn render(&self) -> BevyData {
        match self {
            PhysicsEntity::Ball(ball) => ball.bevy,
            PhysicsEntity::Rectangle(rect) => rect.bevy,
        }
    }

    /// The body with its physical state replaced.
    pub open spec fn with_data(self, data: PhysicsData) -> PhysicsEntity {
        match self {
            PhysicsEntity::Ball(ball) => PhysicsEntity::Ball(
                BallEntity { physics: data, bevy: ball.bevy, radius: ball.radius },
            ),
            PhysicsEntity::Rectangle(rect) => PhysicsEntity::Rectangle(
                RectangleEntity {
                    physics: data,
                    bevy: rect.bevy,
                    width: rect.width,
                    height: rect.height,
                },
            ),
        }
    }

    /// The body with its position replaced.
    pub open spec fn with_position(self, position: Vec2) -> PhysicsEntity {
        self.with_data(
            PhysicsData {
                position,
                velocity: self.data().velocity,
                vertices: self.data().vertices,
                axes: self.data().axes,
                stationary: self.data().stationary,
                mass: self.data().mass,
            },
        )
    }

    /// The body with its velocity replaced.
    pub open spec fn with_velocity(self, velocity: Vec2) -> PhysicsEntity {
        self.with_data(
            PhysicsData {
                position: self.data().position,
                velocity,
                vertices: self.data().vertices,
                axes: self.data().axes,
                stationary: self.data().stationary,
                mass: self.data().mass,
            },
        )
    }

    /// The physical state of the body.
    pub fn physics(&self) -> (r: &PhysicsData)
        ensures
            *r == self.data(),
    {
        match self {
            PhysicsEntity::Ball(ball) => &ball.physics,
            PhysicsEntity::Rectangle(rect) => &rect.physics,
        }
    }

    /// The physical state of the body, to be changed in place: whatever is
    /// written through the reference becomes the state of the body, and
    /// nothing else of the body changes.
    pub fn physics_mut(&mut self) -> (r: &mut PhysicsData)
        ensures
            *r == old(self).data(),
            *final(self) == old(self).with_data(*final(r)),
    {
        match self {
            PhysicsEntity::Ball(ball) => &mut ball.physics,
            PhysicsEntity::Rectangle(rect) => &mut rect.physics,
        }
    }

    /// The centroid.
    pub fn position(&self) -> (r: Vec2)
        ensures
            r == self.data().position,
    {
        self.physics().position
    }

    /// The velocity.
    pub fn velocity(&self) -> (r: Vec2)
        ensures
            r == self.data().velocity,
    {
        self.physics().velocity
    }

    /// Moves the centroid to `pos`.
    pub fn set_position(&mut self, pos: Vec2)
        ensures
            *final(self) == old(self).with_position(pos),
    {
        self.physics_mut().position = pos;
    }

    /// Replaces the velocity by `vel`.
    pub fn set_velocity(&mut self, vel: Vec2)
        ensures
            *final(self) == old(self).with_velocity(vel),
    {
        self.physics_mut().velocity = vel;
    }

    /// The mass.
    pub fn mass(&self) -> (r: Scalar)
        ensures
            r == self.data().mass,
    {
        self.physics().mass
    }

    /// Whether the body is never moved.
    pub fn is_stationary(&self) -> (r: bool)
        ensures
            r == self.data().stationary,
    {
        self.physics().stationary
    }

    /// The corners, relative to the centroid.
    pub fn vertices(&self) -> (r: &Vec<Vec2>)
        ensures
            *r == self.data().vertices,
    {
        &self.physics().vertices
    }

    /// The edge normals.
    pub fn get_axes(&self) -> (r: &Vec<Vec2>)
        ensures
            *r == self.data().axes,
    {
        &self.physics().axes
    }

    /// The handle of the element that draws the body, if there is one.
    pub fn entity(&self) -> (r: Option<u64>)
        ensures
            r == self.render().entity,
    {
        match self {
            PhysicsEntity::Ball(ball) => ball.bevy.entity,
            PhysicsEntity::Rectangle(rect) => rect.bevy.entity,
        }
    }

    /// The corners in world coordinates: each corner moved by the centroid.
    pub fn translated_verts(&self) -> (r: Vec<Vec2>)
        ensures
            views(r@) == self.data().world(),
    {
        let verts = self.vertices();
        let position = self.position();
        let mut out: Vec<Vec2> = Vec::new();
        let mut i: usize = 0;
        while i < verts.len()
            invariant
                0 <= i <= verts.len(),
                out.len() == i,
                *verts == self.data().vertices,
                position == self.data().position,
                forall|j: int| 0 <= j < i ==> out[j]@ == vector_sum(verts[j]@, position@),
            decreases verts.len() - i,
        {
            out.push(verts[i].plus(position));
            i += 1;
        }
        assert(views(out@) =~= self.data().world());
        out
    }
}

} // verus!
