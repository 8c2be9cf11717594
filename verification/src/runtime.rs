//! The loader that runs emitted bundles in the browser.

use vstd::prelude::*;

verus! {

/// The loader, as JavaScript text: a registry of module factories, a cache
/// of module records, `require` with lazy execution, `import` with chunk
/// fetching, and the `hot` object that hot updates go through.
pub const NEXUS_RUNTIME_JS: &'static str = r#"
(function(global) {
  // 1. The Module Registry
  global.__nexus_modules__ = global.__nexus_modules__ || {};

  // 2. The Module Cache
  global.__nexus_cache__ = global.__nexus_cache__ || {};

  // 3. The Register Function
  global.__nexus_register__ = function(id, factoryFn) {
    global.__nexus_modules__[id] = factoryFn;
    // The cache is left alone: a hot update evicts the record itself
    // before it runs the module again.
  };

  // 4. The Require Function
  global.__nexus_require__ = function(id) {
    if (global.__nexus_cache__[id]) {
      return global.__nexus_cache__[id].exports;
    }

    const factory = global.__nexus_modules__[id];
    if (!factory) {
      throw new Error(`[Nexus] Module not found: ${id}`);
    }

    // The record is cached before the factory runs, so that modules which
    // import each other see what the other has exported so far.
    const module = {
      id: id,
      exports: {},
      hot: {
        _accepted: false, // Internal flag for HMR client
        accept: function(dep, cb) {
            // Without a dependency, or with the module's own id, the
            // module accepts its own replacement.
            if (!dep || dep === id) {
                this._accepted = true;
            }
        },
        dispose: function() {},
        data: null
      }
    };
    
    global.__nexus_cache__[id] = module;

    try {
      factory(
        global.__nexus_require__, // require
        module,                   // module
        module.exports            // exports
      );
    } catch (err) {
      delete global.__nexus_cache__[module.id];
      throw err;
    }

    return module.exports;
  };

  // 5. Async Import
  global.__nexus_chunk_map__ = global.__nexus_chunk_map__ || {};
  
  global.__nexus_import__ = function(id) {
    if (global.__nexus_modules__[id]) {
      return Promise.resolve(global.__nexus_require__(id));
    }

    let url = id;
    if (global.__nexus_chunk_map__[id]) {
        url = global.__nexus_chunk_map__[id];
    }
    
    // A module that no chunk is known for is fetched under its own id.

    return fetch(url)
      .then(res => {
          if (!res.ok) throw new Error("[Nexus] Failed to load chunk: " + url);
          return res.text();
      })
      .then(code => {
          (0, eval)(code);
          if (!global.__nexus_modules__[id]) {
              throw new Error("[Nexus] Async chunk loaded but module not registered: " + id);
          }
          return global.__nexus_require__(id);
      });
  };
})(typeof window !== 'undefined' ? window : this);
"#;

} // verus!
