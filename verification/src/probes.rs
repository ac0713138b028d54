//! The scripts that are run inside the page, and the prelude that hands the
//! component walker its depth limit. The scripts are payloads: the library
//! sends them as they are and reads only what they hand back.
use vstd::prelude::*;
use crate::text::{decimal, push_decimal};

verus! {

/// Walks the document from its root element and hands back the tree of
/// elements and text nodes.
pub const DOM_WALKER: &'static str = "(() => {
  const SKIPPED = ['script', 'style', 'noscript', 'link', 'head', 'meta'];
  const clip = (s, n) => (s.length > n ? s.slice(0, n) + '...' : s);
  const kept = (name) => {
    if (name === 'style' || name === 'class') return false;
    if (name.indexOf('data-') === 0) {
      return name.indexOf('data-testid') === 0 || name.indexOf('data-gc-') === 0;
    }
    return true;
  };
  const walk = (node) => {
    if (node.nodeType === 3) {
      const text = (node.textContent || '').trim();
      return text ? { text: clip(text, 80) } : null;
    }
    if (node.nodeType !== 1) return null;
    const tag = node.tagName.toLowerCase();
    if (SKIPPED.indexOf(tag) >= 0) return null;
    const attrs = {};
    for (const attr of Array.from(node.attributes)) {
      if (kept(attr.name)) attrs[attr.name] = clip(attr.value, 100);
    }
    const out = { tag: tag, attrs: attrs, children: [] };
    if (tag === 'svg') return out;
    for (const child of Array.from(node.childNodes)) {
      const walked = walk(child);
      if (walked) out.children.push(walked);
    }
    return out;
  };
  return walk(document.documentElement);
})()";

/// Finds the roots of the component framework in the page and hands back
/// the tree of components and host elements below them, no deeper than
/// `globalThis.__MAX_DEPTH`.
pub const FIBER_WALKER: &'static str = "(() => {
  const limit = typeof globalThis.__MAX_DEPTH === 'number' ? globalThis.__MAX_DEPTH : 200;
  const roots = [];
  const seen = new Set();
  const note = (fiber) => {
    if (fiber && !seen.has(fiber)) {
      seen.add(fiber);
      roots.push(fiber);
    }
  };
  for (const el of Array.from(document.querySelectorAll('*'))) {
    for (const key of Object.keys(el)) {
      if (key.indexOf('__reactContainer$') === 0) {
        const held = el[key];
        note(held && held.stateNode && held.stateNode.current ? held.stateNode.current : held);
      }
    }
    const legacy = el._reactRootContainer;
    if (legacy) {
      const inner = legacy._internalRoot || legacy;
      note(inner && inner.current);
    }
  }
  if (roots.length === 0) return { found: false };
  let refs = 0;
  let components = 0;
  let minified = 0;
  const plain = (value) => {
    const kind = typeof value;
    if (value === null || kind === 'string' || kind === 'number' || kind === 'boolean') {
      return value;
    }
    return Array.isArray(value) ? [] : {};
  };
  const nameOf = (type) => {
    if (!type) return null;
    if (typeof type === 'function') return type.displayName || type.name || null;
    if (typeof type === 'object') {
      if (type.displayName) return type.displayName;
      return nameOf(type.render || type.type);
    }
    return null;
  };
  const propsOf = (fiber) => {
    const out = {};
    const props = fiber.memoizedProps;
    if (props && typeof props === 'object') {
      for (const key of Object.keys(props)) {
        if (key === 'children' || typeof props[key] === 'function') continue;
        out[key] = plain(props[key]);
      }
    }
    return out;
  };
  const below = (fiber, depth) => {
    const out = [];
    for (let child = fiber.child; child; child = child.sibling) {
      for (const node of walk(child, depth)) out.push(node);
    }
    return out;
  };
  const walk = (fiber, depth) => {
    if (depth > limit) return [];
    if (typeof fiber.type === 'string') {
      const el = fiber.stateNode;
      const node = {
        name: fiber.type,
        isComponent: false,
        props: {},
        tag: fiber.type,
        children: below(fiber, depth + 1),
      };
      if (el && el.nodeType === 1) {
        refs += 1;
        node.ref = 'e' + refs;
        const rect = el.getBoundingClientRect();
        node.boxRect = { x: rect.x, y: rect.y, width: rect.width, height: rect.height };
        const role = el.getAttribute('role');
        if (role) node.role = role;
        const label = el.getAttribute('aria-label') || el.getAttribute('alt')
          || el.getAttribute('title') || el.getAttribute('placeholder');
        const own = Array.from(el.childNodes)
          .filter((c) => c.nodeType === 3)
          .map((c) => c.textContent.trim())
          .join(' ')
          .trim();
        const shown = label || own;
        if (shown) node.ariaName = shown.length > 80 ? shown.slice(0, 80) + '...' : shown;
        const attrs = {};
        for (const key of ['href', 'src', 'type', 'name', 'value', 'id', 'data-testid']) {
          const held = el.getAttribute(key);
          if (held !== null && held !== '') attrs[key] = held;
        }
        node.htmlAttrs = attrs;
      }
      return [node];
    }
    const name = nameOf(fiber.type);
    if (name) {
      components += 1;
      if (/^[A-Z]$/.test(name)) minified += 1;
      return [{
        name: name,
        isComponent: true,
        props: propsOf(fiber),
        children: below(fiber, depth + 1),
      }];
    }
    return below(fiber, depth);
  };
  const tree = [];
  for (const root of roots) {
    for (const node of below(root, 0)) tree.push(node);
  }
  return { found: true, tree: tree, allMinified: components > 0 && minified === components };
})()";

/// The depth limit that the component walker gets where the options name
/// none.
pub const DEFAULT_WALK_DEPTH: usize = 200;

/// The script that sets the walker's depth limit and then runs the walker.
pub open spec fn fiber_script(max_depth: nat) -> Seq<char> {
    "globalThis.__MAX_DEPTH = "@ + decimal(max_depth) + ";\n"@ + FIBER_WALKER@
}

/// The script that walks the component tree down to `max_depth`: the depth
/// limit is set in the script's own first line, so that nothing is left to
/// a value that an earlier script put into the page.
pub fn build_fiber_walker_script(max_depth: usize) -> (script: String)
    ensures
        script@ == fiber_script(max_depth as nat),
{
    let mut script = String::new();
    script.append("globalThis.__MAX_DEPTH = ");
    push_decimal(&mut script, max_depth as u64);
    script.append(";\n");
    script.append(FIBER_WALKER);
    assert(script@ =~= fiber_script(max_depth as nat));
    script
}

} // verus!
