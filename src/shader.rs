use vstd::prelude::*;

verus! {

/// A vertex shader and a pixel shader, bound to the uniform value that both
/// receive with each call.
pub struct ShaderProgram<U, P, V> {
    uniform: U,
    pixel_shader: P,
    vertex_shader: V,
}

impl<U, P, V> ShaderProgram<U, P, V> {
    pub closed spec fn uniform_value(&self) -> U {
        self.uniform
    }

    pub fn uniform(&self) -> (r: &U)
        ensures
            *r == self.uniform_value(),
    {
        &self.uniform
    }

    pub closed spec fn pixel_fn(&self) -> P {
        self.pixel_shader
    }

    pub closed spec fn vertex_fn(&self) -> V {
        self.vertex_shader
    }

    pub fn new(uniform: U, pixel_shader: P, vertex_shader: V) -> (r: Self)
        ensures
            r.uniform_value() == uniform,
            r.pixel_fn() == pixel_shader,
            r.vertex_fn() == vertex_shader,
    {
        ShaderProgram { uniform, pixel_shader, vertex_shader }
    }

    /// Runs the pixel shader on `data` with the uniform value.
    pub fn shade_pixel<D, O>(&self, data: D) -> (r: O)
        where
            P: Fn(D, &U) -> O,
        requires
            self.pixel_fn().requires((data, &self.uniform_value())),
        ensures
            self.pixel_fn().ensures((data, &self.uniform_value()), r),
    {
        (self.pixel_shader)(data, &self.uniform)
    }

    /// Runs the vertex shader on `data` with the uniform value.
    pub fn shade_vertex<D, O>(&self, data: D) -> (r: O)
        where
            V: Fn(D, &U) -> O,
        requires
            self.vertex_fn().requires((data, &self.uniform_value())),
        ensures
            self.vertex_fn().ensures((data, &self.uniform_value()), r),
    {
        (self.vertex_shader)(data, &self.uniform)
    }
}

} // verus!
